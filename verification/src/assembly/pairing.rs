//! From the separate outputs and inputs of a GNU asm statement to one list of
//! operands: an input in the same explicit register as an output, or tied to
//! it by index, becomes one operand with it.

use crate::assembly::constraints::{
    constraint_body, constraint_parts, constraint_warnings, dir_with_in, is_regname_or_int,
    names_register_or_index, parse_constraints, parsed_constraints, warnings_about, Arch,
    ArgDirSpec,
};
use crate::assembly::operands::{
    operand_views, AsmOperand, BidirAsmOperand, CExprId, OperandView, TiedOperands,
};
use crate::errors::{ErrorView, TranslationResult};
use crate::text::{decimal, decimal_text, parse_usize, same_text, string_of, strings, usize_of};
use std::collections::HashSet;
use vstd::prelude::*;

verus! {

broadcast use vstd::std_specs::hash::group_hash_axioms;

/// What an [`AsmOperand`] says.
#[verifier::ext_equal]
pub struct SourceView {
    pub constraints: Seq<char>,
    pub expression: CExprId,
}

impl View for AsmOperand {
    type V = SourceView;

    open spec fn view(&self) -> SourceView {
        SourceView { constraints: self.constraints@, expression: self.expression }
    }
}

/// The views of a list of outputs or inputs.
pub open spec fn source_views(ops: Seq<AsmOperand>) -> Seq<SourceView> {
    Seq::new(ops.len(), |i: int| ops[i]@)
}

/// An output or input with its constraint string parsed.
#[derive(Debug)]
pub struct ParsedOperand {
    pub dir_spec: ArgDirSpec,
    pub mem_only: bool,
    pub constraints: String,
    pub expression: CExprId,
}

/// What a [`ParsedOperand`] says.
#[verifier::ext_equal]
pub struct ParsedView {
    pub dir_spec: ArgDirSpec,
    pub mem_only: bool,
    pub constraints: Seq<char>,
    pub expression: CExprId,
}

impl View for ParsedOperand {
    type V = ParsedView;

    open spec fn view(&self) -> ParsedView {
        ParsedView {
            dir_spec: self.dir_spec,
            mem_only: self.mem_only,
            constraints: self.constraints@,
            expression: self.expression,
        }
    }
}

/// The views of a list of parsed operands.
pub open spec fn parsed_views(ops: Seq<ParsedOperand>) -> Seq<ParsedView> {
    Seq::new(ops.len(), |i: int| ops[i]@)
}

/// The operands parsed, or the error of the first that has no meaning.
pub open spec fn parsed_operands(ops: Seq<SourceView>, arch: Arch) -> Result<
    Seq<ParsedView>,
    ErrorView,
>
    decreases ops.len(),
{
    if ops.len() == 0 {
        Ok(Seq::empty())
    } else {
        match parsed_operands(ops.drop_last(), arch) {
            Err(e) => Err(e),
            Ok(front) => match parsed_constraints(ops.last().constraints, arch) {
                Err(e) => Err(e),
                Ok((dir_spec, mem_only, constraints)) => Ok(
                    front.push(
                        ParsedView {
                            dir_spec,
                            mem_only,
                            constraints,
                            expression: ops.last().expression,
                        },
                    ),
                ),
            },
        }
    }
}

proof fn lemma_parse_error_stays(ops: Seq<SourceView>, n: int, arch: Arch)
    requires
        0 <= n <= ops.len(),
    ensures
        parsed_operands(ops.take(n), arch) matches Err(e) ==> parsed_operands(ops, arch) == Err::<
            Seq<ParsedView>,
            ErrorView,
        >(e),
    decreases ops.len(),
{
    if n < ops.len() {
        assert(ops.take(n) == ops.drop_last().take(n));
        lemma_parse_error_stays(ops.drop_last(), n, arch);
    } else {
        assert(ops.take(n) == ops);
    }
}

/// Parses the constraint strings of a list of outputs or inputs, up to the
/// first that has no meaning.
pub fn parse_operands(ops: &[AsmOperand], arch: Arch) -> (res: TranslationResult<
    Vec<ParsedOperand>,
>)
    ensures
        match res {
            Ok(parsed) => parsed_operands(source_views(ops@), arch) == Ok::<
                Seq<ParsedView>,
                ErrorView,
            >(parsed_views(parsed@)) && parsed@.len() == ops@.len(),
            Err(e) => parsed_operands(source_views(ops@), arch) == Err::<
                Seq<ParsedView>,
                ErrorView,
            >(e@),
        },
{
    let ghost views = source_views(ops@);
    let mut out: Vec<ParsedOperand> = Vec::new();
    assert(parsed_views(out@) == Seq::<ParsedView>::empty());
    let mut i: usize = 0;
    while i < ops.len()
        invariant
            i <= ops@.len(),
            out@.len() == i,
            views == source_views(ops@),
            parsed_operands(views.take(i as int), arch) == Ok::<Seq<ParsedView>, ErrorView>(
                parsed_views(out@),
            ),
        decreases ops@.len() - i,
    {
        assert(views.take(i + 1).drop_last() == views.take(i as int));
        assert(views.take(i + 1).last() == ops@[i as int]@);
        let ghost before = parsed_views(out@);
        match parse_constraints(ops[i].constraints.as_str(), arch) {
            Ok((dir_spec, mem_only, constraints)) => {
                out.push(
                    ParsedOperand { dir_spec, mem_only, constraints, expression: ops[i].expression },
                );
                assert(parsed_views(out@) == before.push(out@[i as int]@));
            },
            Err(e) => {
                proof {
                    lemma_parse_error_stays(views, i + 1, arch);
                }
                return Err(e);
            },
        }
        i += 1;
    }
    assert(views.take(views.len() as int) == views);
    Ok(out)
}

/// The warnings about the first operand that has no meaning.
pub open spec fn operand_warnings(ops: Seq<SourceView>, arch: Arch) -> Seq<Seq<char>>
    decreases ops.len(),
{
    if ops.len() == 0 {
        Seq::empty()
    } else if parsed_operands(ops.drop_last(), arch) is Err {
        operand_warnings(ops.drop_last(), arch)
    } else {
        warnings_about(ops.last().constraints, arch)
    }
}

proof fn lemma_warnings_stay(ops: Seq<SourceView>, n: int, arch: Arch)
    requires
        0 <= n <= ops.len(),
        parsed_operands(ops.take(n), arch) is Err,
    ensures
        operand_warnings(ops, arch) == operand_warnings(ops.take(n), arch),
    decreases ops.len(),
{
    if n < ops.len() {
        assert(ops.take(n) == ops.drop_last().take(n));
        lemma_parse_error_stays(ops.drop_last(), n, arch);
        lemma_warnings_stay(ops.drop_last(), n, arch);
    } else {
        assert(ops.take(n) == ops);
    }
}

/// Collects the warnings about the first operand that has no meaning.
pub fn warn_about_operands(ops: &[AsmOperand], arch: Arch) -> (res: Vec<String>)
    ensures
        strings(res@) == operand_warnings(source_views(ops@), arch),
{
    let ghost views = source_views(ops@);
    let mut i: usize = 0;
    while i < ops.len()
        invariant
            i <= ops@.len(),
            views == source_views(ops@),
            parsed_operands(views.take(i as int), arch) is Ok,
            operand_warnings(views.take(i as int), arch) == Seq::<Seq<char>>::empty(),
        decreases ops@.len() - i,
    {
        assert(views.take(i + 1).drop_last() == views.take(i as int));
        assert(views.take(i + 1).last() == ops@[i as int]@);
        let constraints = ops[i].constraints.as_str();
        if parse_constraints(constraints, arch).is_err() {
            proof {
                lemma_warnings_stay(views, i + 1, arch);
            }
            return constraint_warnings(constraints, arch);
        }
        i += 1;
    }
    assert(views.take(views.len() as int) == views);
    let none: Vec<String> = Vec::new();
    assert(strings(none@) =~= Seq::<Seq<char>>::empty());
    none
}

/// The output that an input is tied to: the one whose index its constraint
/// string is, without the marks at its front.
pub open spec fn tie_target(constraints: Seq<char>) -> Option<usize> {
    usize_of(constraint_parts(constraints).body)
}

/// The ties: for each input that names an output, the output leads to the
/// number of the input, and the index of the input in [outputs...inputs] to
/// the output. A later input takes the place of an earlier one.
pub open spec fn ties(inputs: Seq<SourceView>, num_outputs: nat) -> Map<(usize, bool), usize>
    decreases inputs.len(),
{
    if inputs.len() == 0 {
        Map::empty()
    } else {
        let before = ties(inputs.drop_last(), num_outputs);
        let input_idx = inputs.len() - 1;
        match tie_target(inputs.last().constraints) {
            None => before,
            Some(output_idx) => before.insert((output_idx, true), input_idx as usize).insert(
                ((input_idx + num_outputs) as usize, false),
                output_idx,
            ),
        }
    }
}

/// Finds the ties between inputs and outputs.
pub fn find_ties(inputs: &[AsmOperand], num_outputs: usize) -> (res: TiedOperands)
    requires
        inputs@.len() + num_outputs <= usize::MAX,
    ensures
        res.wf(),
        res@ == ties(source_views(inputs@), num_outputs as nat),
{
    let ghost views = source_views(inputs@);
    let mut tied = TiedOperands::new();
    let len = inputs.len();
    let mut i: usize = 0;
    while i < len
        invariant
            i <= len,
            len == inputs@.len(),
            len + num_outputs <= usize::MAX,
            views == source_views(inputs@),
            tied.wf(),
            tied@ == ties(views.take(i as int), num_outputs as nat),
        decreases len - i,
    {
        assert(views.take(i + 1).drop_last() == views.take(i as int));
        assert(views.take(i + 1).last() == inputs@[i as int]@);
        let body = constraint_body(inputs[i].constraints.as_str());
        if let Some(output_idx) = parse_usize(body.as_slice()) {
            tied.insert((output_idx, true), i);
            tied.insert((i + num_outputs, false), output_idx);
        }
        i += 1;
    }
    assert(views.take(views.len() as int) == views);
    tied
}

/// The first place at or after `from` in a list of inputs where one of the
/// given class, register or index stands.
pub open spec fn place_of_class(
    list: Seq<usize>,
    ins: Seq<ParsedView>,
    class: Seq<char>,
    from: int,
) -> Option<int>
    decreases list.len() - from,
{
    if from < 0 || from >= list.len() {
        None
    } else if ins[list[from] as int].constraints == class {
        Some(from)
    } else {
        place_of_class(list, ins, class, from + 1)
    }
}

/// The inputs in an explicit register or with the index of an output, by
/// number. Of several in one register the last counts.
pub open spec fn register_inputs(ins: Seq<ParsedView>) -> Seq<usize>
    decreases ins.len(),
{
    if ins.len() == 0 {
        Seq::empty()
    } else {
        let before = register_inputs(ins.drop_last());
        let class = ins.last().constraints;
        let number = (ins.len() - 1) as usize;
        if !names_register_or_index(class) {
            before
        } else {
            match place_of_class(before, ins, class, 0) {
                Some(p) => before.remove(p).push(number),
                None => before.push(number),
            }
        }
    }
}

/// The other inputs, by number.
pub open spec fn other_inputs(ins: Seq<ParsedView>) -> Seq<usize>
    decreases ins.len(),
{
    if ins.len() == 0 {
        Seq::empty()
    } else {
        let before = other_inputs(ins.drop_last());
        if names_register_or_index(ins.last().constraints) {
            before
        } else {
            before.push((ins.len() - 1) as usize)
        }
    }
}

/// All numbers in the list belong to inputs.
pub open spec fn in_range(list: Seq<usize>, len: nat) -> bool {
    forall|k: int| 0 <= k < list.len() ==> (#[trigger] list[k]) < len
}

fn find_class_place(list: &Vec<usize>, ins: &[ParsedOperand], class: &str) -> (res: Option<usize>)
    requires
        in_range(list@, ins@.len()),
    ensures
        match res {
            Some(p) => p < list@.len() && place_of_class(list@, parsed_views(ins@), class@, 0)
                == Some(p as int),
            None => place_of_class(list@, parsed_views(ins@), class@, 0) is None,
        },
{
    let ghost views = parsed_views(ins@);
    let mut p: usize = 0;
    while p < list.len()
        invariant
            p <= list@.len(),
            views == parsed_views(ins@),
            in_range(list@, ins@.len()),
            place_of_class(list@, views, class@, 0) == place_of_class(
                list@,
                views,
                class@,
                p as int,
            ),
        decreases list@.len() - p,
    {
        let i = list[p];
        assert(views[i as int] == ins@[i as int]@);
        if same_text(ins[i].constraints.as_str(), class) {
            return Some(p);
        }
        p += 1;
    }
    None
}

/// The place that is found is the first of its class, and depends on the listed
/// inputs only.
pub proof fn lemma_place_in_prefix(
    list: Seq<usize>,
    ins: Seq<ParsedView>,
    n: int,
    class: Seq<char>,
    from: int,
)
    requires
        0 <= n <= ins.len(),
        0 <= from,
        in_range(list, n as nat),
    ensures
        place_of_class(list, ins.take(n), class, from) == place_of_class(list, ins, class, from),
        place_of_class(list, ins, class, from) matches Some(p) ==> from <= p < list.len()
            && ins[list[p] as int].constraints == class,
        place_of_class(list, ins, class, from) is None ==> forall|k: int|
            from <= k < list.len() ==> ins[(#[trigger] list[k]) as int].constraints != class,
    decreases list.len() - from,
{
    if from < list.len() {
        lemma_place_in_prefix(list, ins, n, class, from + 1);
    }
}

/// The two lists hold the numbers of inputs only.
pub proof fn lemma_lists_in_range(ins: Seq<ParsedView>)
    ensures
        ins.len() <= usize::MAX ==> in_range(register_inputs(ins), ins.len()) && in_range(
            other_inputs(ins),
            ins.len(),
        ),
    decreases ins.len(),
{
    if ins.len() > 0 && ins.len() <= usize::MAX {
        lemma_lists_in_range(ins.drop_last());
        let before = register_inputs(ins.drop_last());
        lemma_place_in_prefix(before, ins, ins.len() - 1, ins.last().constraints, 0);
    }
}

/// Lists the inputs in an explicit register or with the index of an output,
/// and the others.
fn list_inputs(ins: &[ParsedOperand]) -> (res: (Vec<usize>, Vec<usize>))
    ensures
        res.0@ == register_inputs(parsed_views(ins@)),
        res.1@ == other_inputs(parsed_views(ins@)),
        in_range(res.0@, ins@.len()),
        in_range(res.1@, ins@.len()),
{
    let ghost views = parsed_views(ins@);
    let mut by_register: Vec<usize> = Vec::new();
    let mut others: Vec<usize> = Vec::new();
    let mut i: usize = 0;
    while i < ins.len()
        invariant
            i <= ins@.len(),
            views == parsed_views(ins@),
            by_register@ == register_inputs(views.take(i as int)),
            others@ == other_inputs(views.take(i as int)),
            in_range(by_register@, i as nat),
            in_range(others@, i as nat),
        decreases ins@.len() - i,
    {
        assert(views.take(i + 1).drop_last() == views.take(i as int));
        assert(views.take(i + 1).last() == ins@[i as int]@);
        let class = ins[i].constraints.as_str();
        if is_regname_or_int(class) {
            proof {
                lemma_place_in_prefix(by_register@, views, i + 1, class@, 0);
            }
            if let Some(p) = find_class_place(&by_register, ins, class) {
                by_register.remove(p);
            }
            by_register.push(i);
        } else {
            others.push(i);
        }
        i += 1;
    }
    assert(views.take(views.len() as int) == views);
    (by_register, others)
}

/// The outputs as operands so far, and the inputs that still wait for one.
#[verifier::ext_equal]
pub struct Pairing {
    pub waiting: Seq<usize>,
    pub args: Seq<OperandView>,
}

/// The waiting input that belongs to an output: one in the same register, or
/// else one that has the index of the output.
pub open spec fn partner(
    waiting: Seq<usize>,
    ins: Seq<ParsedView>,
    output: ParsedView,
    output_idx: nat,
) -> Option<int> {
    match place_of_class(waiting, ins, output.constraints, 0) {
        Some(p) => Some(p),
        None => place_of_class(waiting, ins, decimal(output_idx), 0),
    }
}

/// The pairing after the first `n` outputs. An output with a partner becomes an
/// operand that is input too; one without stays an output, or is left out if
/// the template does not refer to it.
pub open spec fn paired(
    ins: Seq<ParsedView>,
    outs: Seq<ParsedView>,
    refs: Set<usize>,
    n: nat,
) -> Pairing
    decreases n,
{
    if n == 0 {
        Pairing { waiting: register_inputs(ins), args: Seq::empty() }
    } else {
        let prev = paired(ins, outs, refs, (n - 1) as nat);
        let output = outs[n - 1];
        let operand = OperandView {
            dir_spec: output.dir_spec,
            mem_only: output.mem_only,
            constraints: output.constraints,
            name: None,
            in_expr: None,
            out_expr: Some(((n - 1) as usize, output.expression)),
        };
        match partner(prev.waiting, ins, output, (n - 1) as nat) {
            Some(p) => {
                let i = prev.waiting[p];
                Pairing {
                    waiting: prev.waiting.remove(p),
                    args: prev.args.push(
                        OperandView {
                            dir_spec: dir_with_in(output.dir_spec),
                            in_expr: Some(((i + outs.len()) as usize, ins[i as int].expression)),
                            ..operand
                        },
                    ),
                }
            },
            None => if refs.contains((n - 1) as usize) {
                Pairing { waiting: prev.waiting, args: prev.args.push(operand) }
            } else {
                prev
            },
        }
    }
}

/// An input as an operand of its own.
pub open spec fn input_operand(input: ParsedView, combined_idx: usize) -> OperandView {
    OperandView {
        dir_spec: input.dir_spec,
        mem_only: input.mem_only,
        constraints: input.constraints,
        name: None,
        in_expr: Some((combined_idx, input.expression)),
        out_expr: None,
    }
}

/// The inputs of a list as operands of their own.
pub open spec fn input_operands(
    list: Seq<usize>,
    ins: Seq<ParsedView>,
    num_outputs: nat,
) -> Seq<OperandView> {
    Seq::new(
        list.len(),
        |k: int| input_operand(ins[list[k] as int], (list[k] + num_outputs) as usize),
    )
}

/// All operands: the outputs with their partners, the inputs that found no
/// partner, the inputs that looked for none.
pub open spec fn unified(ins: Seq<ParsedView>, outs: Seq<ParsedView>, refs: Set<usize>) -> Seq<
    OperandView,
> {
    let pairing = paired(ins, outs, refs, outs.len());
    pairing.args + input_operands(pairing.waiting, ins, outs.len()) + input_operands(
        other_inputs(ins),
        ins,
        outs.len(),
    )
}

proof fn lemma_views_push(args: Seq<BidirAsmOperand>, op: BidirAsmOperand)
    ensures
        operand_views(args.push(op)) == operand_views(args).push(op@),
{
    assert(operand_views(args.push(op)) =~= operand_views(args).push(op@));
}

fn push_inputs(
    args: &mut Vec<BidirAsmOperand>,
    list: &Vec<usize>,
    ins: &[ParsedOperand],
    num_outputs: usize,
)
    requires
        in_range(list@, ins@.len()),
        ins@.len() + num_outputs <= usize::MAX,
    ensures
        operand_views(final(args)@) == operand_views(old(args)@) + input_operands(
            list@,
            parsed_views(ins@),
            num_outputs as nat,
        ),
{
    let ghost views = parsed_views(ins@);
    let ghost all = input_operands(list@, views, num_outputs as nat);
    let len = ins.len();
    let mut k: usize = 0;
    while k < list.len()
        invariant
            k <= list@.len(),
            len == ins@.len(),
            len + num_outputs <= usize::MAX,
            in_range(list@, ins@.len()),
            views == parsed_views(ins@),
            all == input_operands(list@, views, num_outputs as nat),
            operand_views(args@) == operand_views(old(args)@) + all.take(k as int),
        decreases list@.len() - k,
    {
        let i = list[k];
        assert(i < len);
        assert(views[i as int] == ins@[i as int]@);
        let op = BidirAsmOperand {
            dir_spec: ins[i].dir_spec,
            mem_only: ins[i].mem_only,
            constraints: ins[i].constraints.clone(),
            name: None,
            in_expr: Some((i + num_outputs, ins[i].expression)),
            out_expr: None,
        };
        proof {
            lemma_views_push(args@, op);
            assert(op@ == all[k as int]);
            assert(all.take(k + 1) == all.take(k as int).push(all[k as int]));
        }
        args.push(op);
        k += 1;
    }
    assert(all.take(all.len() as int) == all);
}

/// Makes one list of operands of the outputs and inputs.
pub fn unify_operands(
    ins: &[ParsedOperand],
    outs: &[ParsedOperand],
    refs: &HashSet<usize>,
) -> (res: Vec<BidirAsmOperand>)
    requires
        ins@.len() + outs@.len() <= usize::MAX,
    ensures
        operand_views(res@) == unified(parsed_views(ins@), parsed_views(outs@), refs@),
{
    let ghost in_views = parsed_views(ins@);
    let ghost out_views = parsed_views(outs@);
    let (mut waiting, others) = list_inputs(ins);
    let num_inputs = ins.len();
    let num_outputs = outs.len();
    let mut args: Vec<BidirAsmOperand> = Vec::new();
    assert(operand_views(args@) == Seq::<OperandView>::empty());
    let mut o: usize = 0;
    while o < num_outputs
        invariant
            o <= num_outputs,
            num_inputs == ins@.len(),
            num_outputs == outs@.len(),
            num_inputs + num_outputs <= usize::MAX,
            in_views == parsed_views(ins@),
            out_views == parsed_views(outs@),
            in_range(waiting@, ins@.len()),
            waiting@ == paired(in_views, out_views, refs@, o as nat).waiting,
            operand_views(args@) == paired(in_views, out_views, refs@, o as nat).args,
        decreases num_outputs - o,
    {
        assert(out_views[o as int] == outs@[o as int]@);
        let output = &outs[o];
        let ghost prev = paired(in_views, out_views, refs@, o as nat);
        let by_register = find_class_place(&waiting, ins, output.constraints.as_str());
        let place = if by_register.is_some() {
            by_register
        } else {
            let number = decimal_text(o);
            let index = string_of(number.as_slice());
            find_class_place(&waiting, ins, index.as_str())
        };
        match place {
            Some(p) => {
                let i = waiting[p];
                assert(in_views[i as int] == ins@[i as int]@);
                let op = BidirAsmOperand {
                    dir_spec: output.dir_spec.with_in(),
                    mem_only: output.mem_only,
                    constraints: output.constraints.clone(),
                    name: None,
                    in_expr: Some((i + num_outputs, ins[i].expression)),
                    out_expr: Some((o, output.expression)),
                };
                proof {
                    lemma_views_push(args@, op);
                }
                waiting.remove(p);
                args.push(op);
            },
            None => {
                if refs.contains(&o) {
                    let op = BidirAsmOperand {
                        dir_spec: output.dir_spec,
                        mem_only: output.mem_only,
                        constraints: output.constraints.clone(),
                        name: None,
                        in_expr: None,
                        out_expr: Some((o, output.expression)),
                    };
                    proof {
                        lemma_views_push(args@, op);
                    }
                    args.push(op);
                }
            },
        }
        o += 1;
    }
    push_inputs(&mut args, &waiting, ins, num_outputs);
    push_inputs(&mut args, &others, ins, num_outputs);
    args
}

/// The input is in an explicit register or has the index of an output, and no
/// later input has the same.
pub open spec fn counts_for_register(ins: Seq<ParsedView>, i: int) -> bool {
    &&& 0 <= i < ins.len()
    &&& names_register_or_index(ins[i].constraints)
    &&& forall|j: int|
        i < j < ins.len() ==> (#[trigger] ins[j]).constraints != ins[i].constraints
}

/// Of the inputs in one explicit register, or with the index of one output,
/// exactly the last is listed, and it is listed once.
pub proof fn law_last_of_register_counts(ins: Seq<ParsedView>)
    requires
        ins.len() <= usize::MAX,
    ensures
        register_inputs(ins).no_duplicates(),
        forall|i: usize| #[trigger]
            register_inputs(ins).contains(i) <==> counts_for_register(ins, i as int),
    decreases ins.len(),
{
    if ins.len() > 0 {
        let front = ins.drop_last();
        let before = register_inputs(front);
        let after = register_inputs(ins);
        let class = ins.last().constraints;
        let number = (ins.len() - 1) as usize;
        law_last_of_register_counts(front);
        lemma_lists_in_range(front);
        lemma_place_in_prefix(before, ins, ins.len() - 1, class, 0);
        assert(ins.take(ins.len() - 1) == front);
        assert(!before.contains(number)) by {
            if before.contains(number) {
                let k = choose|k: int| 0 <= k < before.len() && before[k] == number;
                assert(before[k] < front.len());
            }
        }
        assert forall|i: usize| #[trigger] after.contains(i) implies counts_for_register(
            ins,
            i as int,
        ) by {
            let k = choose|k: int| 0 <= k < after.len() && after[k] == i;
            if i != number {
                assert(before.contains(i)) by {
                    let p = place_of_class(before, ins, class, 0);
                    if names_register_or_index(class) && p is Some && k >= p.unwrap() {
                        assert(before[k + 1] == i);
                    } else {
                        assert(before[k] == i);
                    }
                }
                assert(counts_for_register(front, i as int));
                let m = choose|m: int| 0 <= m < before.len() && before[m] == i;
                assert forall|j: int| i < j < ins.len() implies (
                #[trigger] ins[j]).constraints != ins[i as int].constraints by {
                    if j < front.len() {
                        assert(front[j].constraints != front[i as int].constraints);
                    } else if names_register_or_index(class) {
                        match place_of_class(before, ins, class, 0) {
                            Some(p) => {
                                if ins[i as int].constraints == class {
                                    assert(before.contains(before[p]));
                                    assert(counts_for_register(front, before[p] as int));
                                    assert(front[before[p] as int].constraints == class);
                                    assert(before[p] == i) by {
                                        if before[p] < i {
                                            assert(front[i as int].constraints != class);
                                        } else if i < before[p] {
                                            assert(front[before[p] as int].constraints != class);
                                        }
                                    }
                                    assert(m == p);
                                    if k >= p {
                                        assert(before[k + 1] == before[p]);
                                    } else {
                                        assert(before[k] == before[p]);
                                    }
                                }
                            },
                            None => {
                                assert(ins[before[m] as int].constraints != class);
                            },
                        }
                    } else {
                        assert(names_register_or_index(front[i as int].constraints));
                    }
                }
            }
        }
        assert forall|i: usize| counts_for_register(ins, i as int) implies #[trigger] after.contains(
            i,
        ) by {
            if i == number {
                assert(after.last() == number);
                assert(after[after.len() - 1] == i);
            } else {
                assert(counts_for_register(front, i as int)) by {
                    assert forall|j: int| i < j < front.len() implies (
                    #[trigger] front[j]).constraints != front[i as int].constraints by {
                        assert(ins[j].constraints != ins[i as int].constraints);
                    }
                }
                assert(before.contains(i));
                let m = choose|m: int| 0 <= m < before.len() && before[m] == i;
                assert(ins[number as int].constraints != ins[i as int].constraints);
                match place_of_class(before, ins, class, 0) {
                    Some(p) => {
                        if names_register_or_index(class) {
                            assert(ins[before[p] as int].constraints == class);
                            assert(m != p);
                            if m < p {
                                assert(after[m] == i);
                            } else {
                                assert(after[m - 1] == i);
                            }
                        } else {
                            assert(after[m] == i);
                        }
                    },
                    None => {
                        assert(after[m] == i);
                    },
                }
            }
        }
    }
}

/// One of the operands takes the input.
pub open spec fn takes_input(ops: Seq<OperandView>, input: (usize, CExprId)) -> bool {
    exists|k: int| 0 <= k < ops.len() && (#[trigger] ops[k]).in_expr == Some(input)
}

/// One of the operands gives the output.
pub open spec fn gives_output(ops: Seq<OperandView>, output: (usize, CExprId)) -> bool {
    exists|k: int| 0 <= k < ops.len() && (#[trigger] ops[k]).out_expr == Some(output)
}

/// What the pairing keeps from output to output.
pub proof fn lemma_paired(ins: Seq<ParsedView>, outs: Seq<ParsedView>, refs: Set<usize>, n: nat)
    requires
        n <= outs.len(),
        ins.len() + outs.len() <= usize::MAX,
    ensures
        in_range(paired(ins, outs, refs, n).waiting, ins.len()),
        forall|i: usize| #[trigger]
            register_inputs(ins).contains(i) ==> paired(ins, outs, refs, n).waiting.contains(i)
                || takes_input(
                paired(ins, outs, refs, n).args,
                ((i + outs.len()) as usize, ins[i as int].expression),
            ),
        forall|o: usize|
            o < n && #[trigger] refs.contains(o) ==> gives_output(
                paired(ins, outs, refs, n).args,
                (o, outs[o as int].expression),
            ),
    decreases n,
{
    lemma_lists_in_range(ins);
    if n > 0 {
        lemma_paired(ins, outs, refs, (n - 1) as nat);
        let prev = paired(ins, outs, refs, (n - 1) as nat);
        let next = paired(ins, outs, refs, n);
        lemma_place_in_prefix(prev.waiting, ins, ins.len() as int, outs[n - 1].constraints, 0);
        lemma_place_in_prefix(prev.waiting, ins, ins.len() as int, decimal((n - 1) as nat), 0);
        let place = partner(prev.waiting, ins, outs[n - 1], (n - 1) as nat);
        assert forall|k: int| 0 <= k < prev.args.len() implies next.args[k]
            == #[trigger] prev.args[k] by {}
        assert forall|i: usize| #[trigger]
            register_inputs(ins).contains(i) implies next.waiting.contains(i) || takes_input(
            next.args,
            ((i + outs.len()) as usize, ins[i as int].expression),
        ) by {
            let input = ((i + outs.len()) as usize, ins[i as int].expression);
            if prev.waiting.contains(i) {
                let w = choose|w: int| 0 <= w < prev.waiting.len() && prev.waiting[w] == i;
                match place {
                    Some(p) => {
                        if w < p {
                            assert(next.waiting[w] == i);
                        } else if w > p {
                            assert(next.waiting[w - 1] == i);
                        } else {
                            assert(next.args[prev.args.len() as int].in_expr == Some(input));
                        }
                    },
                    None => {
                        assert(next.waiting[w] == i);
                    },
                }
            } else {
                let k = choose|k: int|
                    0 <= k < prev.args.len() && (#[trigger] prev.args[k]).in_expr == Some(input);
                assert(next.args[k].in_expr == Some(input));
            }
        }
        assert forall|o: usize| o < n && #[trigger] refs.contains(o) implies gives_output(
            next.args,
            (o, outs[o as int].expression),
        ) by {
            let output = (o, outs[o as int].expression);
            if o < n - 1 {
                let k = choose|k: int|
                    0 <= k < prev.args.len() && (#[trigger] prev.args[k]).out_expr == Some(output);
                assert(next.args[k].out_expr == Some(output));
            } else {
                assert(next.args[prev.args.len() as int].out_expr == Some(output));
            }
        }
    }
}

/// No operand gets lost that matters: every output that the template refers to
/// is given by an operand, and every input is taken by one, but for an input
/// whose explicit register or output index a later input has too.
pub proof fn law_no_operand_lost(ins: Seq<ParsedView>, outs: Seq<ParsedView>, refs: Set<usize>)
    requires
        ins.len() + outs.len() <= usize::MAX,
    ensures
        forall|o: usize|
            o < outs.len() && #[trigger] refs.contains(o) ==> gives_output(
                unified(ins, outs, refs),
                (o, outs[o as int].expression),
            ),
        forall|i: int|
            0 <= i < ins.len() && (!names_register_or_index((#[trigger] ins[i]).constraints)
                || counts_for_register(ins, i)) ==> takes_input(
                unified(ins, outs, refs),
                ((i + outs.len()) as usize, ins[i].expression),
            ),
{
    let all = unified(ins, outs, refs);
    let pairing = paired(ins, outs, refs, outs.len());
    let first = pairing.args;
    let second = input_operands(pairing.waiting, ins, outs.len());
    let third = input_operands(other_inputs(ins), ins, outs.len());
    lemma_paired(ins, outs, refs, outs.len());
    law_last_of_register_counts(ins);
    assert forall|o: usize| o < outs.len() && #[trigger] refs.contains(o) implies gives_output(
        all,
        (o, outs[o as int].expression),
    ) by {
        let k = choose|k: int|
            0 <= k < first.len() && (#[trigger] first[k]).out_expr == Some(
                (o, outs[o as int].expression),
            );
        assert(all[k] == first[k]);
    }
    assert forall|i: int|
        0 <= i < ins.len() && (!names_register_or_index((#[trigger] ins[i]).constraints)
            || counts_for_register(ins, i)) implies takes_input(
        all,
        ((i + outs.len()) as usize, ins[i].expression),
    ) by {
        let input = ((i + outs.len()) as usize, ins[i].expression);
        if names_register_or_index(ins[i].constraints) {
            assert(register_inputs(ins).contains(i as usize));
            if pairing.waiting.contains(i as usize) {
                let w = choose|w: int|
                    0 <= w < pairing.waiting.len() && pairing.waiting[w] == i as usize;
                assert(second[w].in_expr == Some(input));
                assert(all[first.len() + w] == second[w]);
            } else {
                let k = choose|k: int|
                    0 <= k < first.len() && (#[trigger] first[k]).in_expr == Some(input);
                assert(all[k] == first[k]);
            }
        } else {
            lemma_other_listed(ins, i);
            let w = choose|w: int|
                0 <= w < other_inputs(ins).len() && other_inputs(ins)[w] == i as usize;
            assert(third[w].in_expr == Some(input));
            assert(all[first.len() + second.len() + w] == third[w]);
        }
    }
}

proof fn lemma_other_listed(ins: Seq<ParsedView>, i: int)
    requires
        0 <= i < ins.len(),
        !names_register_or_index(ins[i].constraints),
    ensures
        other_inputs(ins).contains(i as usize),
    decreases ins.len(),
{
    let after = other_inputs(ins);
    if i == ins.len() - 1 {
        assert(after[after.len() - 1] == i as usize);
    } else {
        lemma_other_listed(ins.drop_last(), i);
        let before = other_inputs(ins.drop_last());
        let w = choose|w: int| 0 <= w < before.len() && before[w] == i as usize;
        assert(after[w] == i as usize);
    }
}

/// The index of the input that the operand takes, or none.
pub open spec fn input_index(op: OperandView) -> Option<usize> {
    match op.in_expr {
        Some((idx, _)) => Some(idx),
        None => None,
    }
}

/// The index of the output that the operand gives, or none.
pub open spec fn output_index(op: OperandView) -> Option<usize> {
    match op.out_expr {
        Some((idx, _)) => Some(idx),
        None => None,
    }
}

/// Both operands carry one index, as an input or as an output.
pub open spec fn clash(a: OperandView, b: OperandView) -> bool {
    ||| input_index(a) is Some && (input_index(a) == input_index(b) || input_index(a)
        == output_index(b))
    ||| output_index(a) is Some && (output_index(a) == output_index(b) || output_index(a)
        == input_index(b))
}

/// No index is carried by two operands.
pub open spec fn are_distinct(ops: Seq<OperandView>) -> bool {
    forall|k: int, l: int| 0 <= k < l < ops.len() ==> !#[trigger] clash(ops[k], ops[l])
}

/// If the operand takes this input, the input is in an explicit register or has
/// the index of an output, and waits no more.
spec fn waits_no_more(
    ins: Seq<ParsedView>,
    num_outputs: nat,
    p: Pairing,
    k: int,
    i: usize,
) -> bool {
    input_index(p.args[k]) == Some((i + num_outputs) as usize) ==> register_inputs(ins).contains(i)
        && !p.waiting.contains(i)
}

/// What holds of a pairing after `n` outputs: the waiting inputs are listed
/// once; the operands give outputs before `n`; and what they take waits no
/// more.
spec fn pairing_distinct(
    ins: Seq<ParsedView>,
    outs: Seq<ParsedView>,
    refs: Set<usize>,
    n: nat,
) -> bool {
    let p = paired(ins, outs, refs, n);
    &&& p.waiting.no_duplicates()
    &&& forall|w: int|
        0 <= w < p.waiting.len() ==> register_inputs(ins).contains(#[trigger] p.waiting[w])
    &&& are_distinct(p.args)
    &&& forall|k: int|
        0 <= k < p.args.len() ==> (output_index(#[trigger] p.args[k]) matches Some(o) && o < n)
    &&& forall|k: int, i: usize|
        0 <= k < p.args.len() && i < ins.len() ==> #[trigger] waits_no_more(
            ins,
            outs.len(),
            p,
            k,
            i,
        )
    &&& forall|k: int|
        0 <= k < p.args.len() && input_index(#[trigger] p.args[k]) is Some ==> outs.len()
            <= input_index(p.args[k]).unwrap() < ins.len() + outs.len()
}

proof fn lemma_pairing_distinct(
    ins: Seq<ParsedView>,
    outs: Seq<ParsedView>,
    refs: Set<usize>,
    n: nat,
)
    requires
        n <= outs.len(),
        ins.len() + outs.len() <= usize::MAX,
    ensures
        pairing_distinct(ins, outs, refs, n),
    decreases n,
{
    law_last_of_register_counts(ins);
    lemma_lists_in_range(ins);
    if n == 0 {
        assert forall|w: int| 0 <= w < register_inputs(ins).len() implies register_inputs(
            ins,
        ).contains(#[trigger] register_inputs(ins)[w]) by {}
    } else {
        lemma_pairing_distinct(ins, outs, refs, (n - 1) as nat);
        lemma_paired(ins, outs, refs, (n - 1) as nat);
        let prev = paired(ins, outs, refs, (n - 1) as nat);
        let next = paired(ins, outs, refs, n);
        lemma_place_in_prefix(prev.waiting, ins, ins.len() as int, outs[n - 1].constraints, 0);
        lemma_place_in_prefix(prev.waiting, ins, ins.len() as int, decimal((n - 1) as nat), 0);
        let last = prev.args.len() as int;
        match partner(prev.waiting, ins, outs[n - 1], (n - 1) as nat) {
            Some(p) => {
                let taken = prev.waiting[p];
                assert(prev.waiting.contains(taken));
                assert(taken < ins.len());
                assert(input_index(next.args[last]) == Some((taken + outs.len()) as usize));
                assert forall|i: usize| next.waiting.contains(i) implies prev.waiting.contains(i)
                    && i != taken by {
                    let w = choose|w: int| 0 <= w < next.waiting.len() && next.waiting[w] == i;
                    if w < p {
                        assert(prev.waiting[w] == i);
                    } else {
                        assert(prev.waiting[w + 1] == i);
                    }
                }
                assert(next.waiting.no_duplicates()) by {
                    assert forall|a: int, b: int|
                        0 <= a < next.waiting.len() && 0 <= b < next.waiting.len() && a
                            != b implies next.waiting[a] != next.waiting[b] by {
                        let a0 = if a < p {
                            a
                        } else {
                            a + 1
                        };
                        let b0 = if b < p {
                            b
                        } else {
                            b + 1
                        };
                        assert(prev.waiting[a0] != prev.waiting[b0]);
                    }
                }
                assert forall|w: int| 0 <= w < next.waiting.len() implies register_inputs(
                    ins,
                ).contains(#[trigger] next.waiting[w]) by {
                    assert(next.waiting.contains(next.waiting[w]));
                    let v = choose|v: int|
                        0 <= v < prev.waiting.len() && prev.waiting[v] == next.waiting[w];
                    assert(register_inputs(ins).contains(prev.waiting[v]));
                }
                assert forall|k: int|
                    0 <= k < last && input_index(#[trigger] next.args[k]) is Some implies input_index(
                    next.args[k],
                ) != input_index(next.args[last]) by {
                    assert(next.args[k] == prev.args[k]);
                    assert(waits_no_more(ins, outs.len(), prev, k, taken));
                }
                assert forall|k: int, i: usize|
                    0 <= k < next.args.len() && i < ins.len() implies #[trigger] waits_no_more(
                    ins,
                    outs.len(),
                    next,
                    k,
                    i,
                ) by {
                    if k < last {
                        assert(next.args[k] == prev.args[k]);
                        assert(waits_no_more(ins, outs.len(), prev, k, i));
                    } else {
                        assert(register_inputs(ins).contains(prev.waiting[p]));
                        if input_index(next.args[k]) == Some((i + outs.len()) as usize) {
                            assert(i == taken);
                        }
                    }
                }
            },
            None => {
                assert forall|k: int, i: usize|
                    0 <= k < next.args.len() && i < ins.len() implies #[trigger] waits_no_more(
                    ins,
                    outs.len(),
                    next,
                    k,
                    i,
                ) by {
                    if k < last {
                        assert(next.args[k] == prev.args[k]);
                        assert(waits_no_more(ins, outs.len(), prev, k, i));
                    }
                }
            },
        }
        assert forall|k: int| 0 <= k < last implies next.args[k] == #[trigger] prev.args[k] by {}
        assert forall|k: int| 0 <= k < next.args.len() implies (output_index(
            #[trigger] next.args[k],
        ) matches Some(o) && o < n) by {
            if k < last {
                assert(next.args[k] == prev.args[k]);
            }
        }
        assert forall|k: int|
            0 <= k < next.args.len() && input_index(#[trigger] next.args[k]) is Some implies outs.len()
            <= input_index(next.args[k]).unwrap() < ins.len() + outs.len() by {
            if k < last {
                assert(next.args[k] == prev.args[k]);
            }
        }
        assert forall|k: int, l: int| 0 <= k < l < next.args.len() implies !#[trigger] clash(
            next.args[k],
            next.args[l],
        ) by {
            assert(next.args[k] == prev.args[k]);
            assert(output_index(prev.args[k]).unwrap() < n - 1);
            if l < last {
                assert(next.args[l] == prev.args[l]);
                assert(!clash(prev.args[k], prev.args[l]));
            } else {
                assert(output_index(next.args[l]).unwrap() == n - 1);
                if input_index(prev.args[k]) is Some {
                    assert(input_index(next.args[k]) != input_index(next.args[last]));
                }
            }
        }
    }
}

/// The other inputs are listed once, and none of them names a register.
pub proof fn lemma_others_distinct(ins: Seq<ParsedView>)
    requires
        ins.len() <= usize::MAX,
    ensures
        other_inputs(ins).no_duplicates(),
        in_range(other_inputs(ins), ins.len()),
        forall|w: int|
            0 <= w < other_inputs(ins).len() ==> !names_register_or_index(
                ins[(#[trigger] other_inputs(ins)[w]) as int].constraints,
            ),
    decreases ins.len(),
{
    if ins.len() > 0 {
        lemma_others_distinct(ins.drop_last());
    }
}

/// No index is carried by two operands: no input is taken twice and no output is
/// given twice.
pub proof fn law_operands_are_distinct(
    ins: Seq<ParsedView>,
    outs: Seq<ParsedView>,
    refs: Set<usize>,
)
    requires
        ins.len() + outs.len() <= usize::MAX,
    ensures
        are_distinct(unified(ins, outs, refs)),
{
    let all = unified(ins, outs, refs);
    let pairing = paired(ins, outs, refs, outs.len());
    let first = pairing.args;
    let second = input_operands(pairing.waiting, ins, outs.len());
    let third = input_operands(other_inputs(ins), ins, outs.len());
    let a = first.len() as int;
    let b = a + second.len() as int;
    lemma_pairing_distinct(ins, outs, refs, outs.len());
    lemma_paired(ins, outs, refs, outs.len());
    lemma_others_distinct(ins);
    law_last_of_register_counts(ins);
    assert forall|k: int, l: int| 0 <= k < l < all.len() implies !#[trigger] clash(
        all[k],
        all[l],
    ) by {
        if k < a {
            assert(all[k] == first[k]);
        } else if k < b {
            assert(all[k] == second[k - a]);
        } else {
            assert(all[k] == third[k - b]);
        }
        if l < a {
            assert(all[l] == first[l]);
        } else if l < b {
            let i = pairing.waiting[l - a];
            assert(all[l] == second[l - a]);
            assert(pairing.waiting.contains(i));
            if k < a {
                assert(waits_no_more(ins, outs.len(), pairing, k, i));
            }
        } else {
            let i = other_inputs(ins)[l - b];
            assert(all[l] == third[l - b]);
            if k < a {
                assert(waits_no_more(ins, outs.len(), pairing, k, i));
                if input_index(first[k]) == Some((i + outs.len()) as usize) {
                    assert(counts_for_register(ins, i as int));
                }
            } else if k < b {
                assert(register_inputs(ins).contains(pairing.waiting[k - a]));
                assert(counts_for_register(ins, pairing.waiting[k - a] as int));
            }
        }
    }
}

} // verus!
