//! Converting a whole inline-assembly statement.

use crate::assembly::constraints::{arch_of, names_register_or_index, parse_arch, Arch, ArgDirSpec};
use crate::assembly::operands::{
    lemma_only_counts, only, operand_views, positional_first, sort_positional_first, AsmOperand,
    BidirAsmOperand, OperandView, TiedOperands,
};
use crate::assembly::pairing::{
    are_distinct, clash, counts_for_register, find_ties, gives_output, law_no_operand_lost,
    law_operands_are_distinct, operand_warnings, paired, parse_operands, parsed_operands,
    parsed_views, source_views, takes_input, ties, unified, unify_operands, warn_about_operands,
    ParsedOperand, ParsedView, SourceView,
};
use crate::assembly::reserved::{
    after_moves, in_reserved_register, law_moved_operands_are_ordered, lemma_positional_count,
    lemma_rewrites, reserved_moved, rewrite_reserved_reg_operands, rewrites,
    unnamed_positional_first,
};
use crate::assembly::statement::{
    asm_options, input_setup, is_pure, lower_operands, lowered, output_setup, pick_options,
    register_clobbers, reserved_clobbers, sort_clobbers, AsmOption, AsmStmt, AsmTraits, CastOut,
};
use crate::assembly::syntax::{asm_is_att_syntax, is_att};
use crate::assembly::template::{
    law_references_are_rewritten, reference_bracket, referenced_operand_indices, references,
    references_operand_at_or_beyond, refers_to, rewrite_asm, rewritten, rewritten_chunk,
    OperandTable, TableView,
};
use crate::assembly::tokens::{AsmCall, CallView};
use crate::errors::{generic_error, ErrorView, TranslationError, TranslationResult};
use crate::text::{
    chars_of, decimal, decimal_text, join, law_join_split, lemma_split_pieces, occurs, occurs_at,
    push_all, push_text, split, split_at_char, string_of, strings, texts,
};
use std::collections::HashSet;
use vstd::prelude::*;

verus! {

broadcast use vstd::std_specs::hash::group_hash_axioms;

/// What the conversion of inline assembly depends on beside the statement.
#[derive(Debug)]
pub struct Translation {
    /// Inline assembly is to be translated at all.
    pub translate_asm: bool,
    /// The target tuple.
    pub target: String,
}

/// The operands and the template of an `asm!`.
#[derive(Debug)]
pub struct AsmPlan {
    pub arch: Arch,
    pub operands: Vec<BidirAsmOperand>,
    pub tied: TiedOperands,
    pub text: String,
    pub att_syntax: bool,
    /// An operand occurs in a comment of the template only.
    pub comment_only_operand: bool,
}

/// What an [`AsmPlan`] says.
#[verifier::ext_equal]
pub struct PlanView {
    pub arch: Arch,
    pub operands: Seq<OperandView>,
    pub tied: Map<(usize, bool), usize>,
    pub text: Seq<char>,
    pub att_syntax: bool,
    pub comment_only_operand: bool,
}

impl View for AsmPlan {
    type V = PlanView;

    open spec fn view(&self) -> PlanView {
        PlanView {
            arch: self.arch,
            operands: operand_views(self.operands@),
            tied: self.tied@,
            text: self.text@,
            att_syntax: self.att_syntax,
            comment_only_operand: self.comment_only_operand,
        }
    }
}

/// The template refers to the operand, by the index of its output or of its
/// input.
pub open spec fn is_referenced(op: OperandView, refs: Set<usize>) -> bool {
    ||| op.out_expr matches Some((idx, _)) && refs.contains(idx)
    ||| op.in_expr matches Some((idx, _)) && refs.contains(idx)
}

/// The comment that mentions an operand.
pub open spec fn usage_comment(idx: nat) -> Seq<char> {
    "/* {"@ + decimal(idx) + "} */\n"@
}

/// Comments that mention the operands that the template does not refer to.
pub open spec fn usage_comments(ops: Seq<OperandView>, refs: Set<usize>) -> Seq<char>
    decreases ops.len(),
{
    if ops.len() == 0 {
        Seq::empty()
    } else {
        let before = usage_comments(ops.drop_last(), refs);
        if is_referenced(ops.last(), refs) {
            before
        } else {
            before + usage_comment((ops.len() - 1) as nat)
        }
    }
}

/// Some operand has no reference.
pub open spec fn some_unreferenced(ops: Seq<OperandView>, refs: Set<usize>) -> bool {
    exists|k: int| 0 <= k < ops.len() && !is_referenced(#[trigger] ops[k], refs)
}

/// For each original operand, whether it is memory only.
pub open spec fn mem_only_flags(outs: Seq<ParsedView>, ins: Seq<ParsedView>) -> Seq<bool> {
    Seq::new(outs.len(), |i: int| outs[i].mem_only) + Seq::new(ins.len(), |i: int| ins[i].mem_only)
}

/// The error for a reference to a label operand.
pub open spec fn label_error() -> ErrorView {
    generic_error(
        "Cannot translate GNU asm goto (extended asm with label operands): label operands are not extracted from the Clang AST and have no Rust `asm!` equivalent that can be generated automatically."@,
    )
}

/// The error for an input that is tied to an output without an operand.
pub open spec fn loose_tie_error() -> ErrorView {
    generic_error("an input operand is tied to an output that has no operand before it"@)
}

/// The template refers to an operand behind all outputs and inputs.
pub open spec fn refers_to_label(template: Seq<char>, num_operands: int) -> bool {
    exists|k: int|
        0 <= k < references(template).len() && #[trigger] references(template)[k] >= num_operands
}

/// The operands and the memory flags that a template is rewritten with.
pub open spec fn planned_table(
    template: Seq<char>,
    ins: Seq<ParsedView>,
    outs: Seq<ParsedView>,
    arch: Arch,
) -> TableView {
    let refs = references(template).to_set();
    let att = (arch is X86 || arch is X86_64) && is_att(template);
    TableView {
        operands: reserved_moved(positional_first(unified(ins, outs, refs)), att, arch).ops,
        mem_only: mem_only_flags(outs, ins),
    }
}

/// The plan for a template and its parsed operands.
pub open spec fn planned_with(
    template: Seq<char>,
    tied: Map<(usize, bool), usize>,
    ins: Seq<ParsedView>,
    outs: Seq<ParsedView>,
    arch: Arch,
) -> Result<PlanView, ErrorView> {
    let refs = references(template).to_set();
    let att = (arch is X86 || arch is X86_64) && is_att(template);
    let moved = reserved_moved(positional_first(unified(ins, outs, refs)), att, arch);
    let table = planned_table(template, ins, outs, arch);
    match rewritten(template, att, table, arch) {
        Err(e) => Err(e),
        Ok(text) => {
            let plan = PlanView {
                arch,
                operands: moved.ops,
                tied,
                text: moved.prolog + text + moved.epilog + usage_comments(moved.ops, refs),
                att_syntax: att,
                comment_only_operand: some_unreferenced(moved.ops, refs),
            };
            if plan.ties_lead_back() {
                Ok(plan)
            } else {
                Err(loose_tie_error())
            }
        },
    }
}

/// The plan for a statement, or why it cannot be converted.
pub open spec fn planned(
    translate_asm: bool,
    target: Seq<char>,
    template: Seq<char>,
    inputs: Seq<SourceView>,
    outputs: Seq<SourceView>,
) -> Result<PlanView, ErrorView> {
    if !translate_asm {
        Err(generic_error("Inline assembly translation not enabled."@))
    } else {
        match arch_of(target) {
            None => Err(
                generic_error("Cannot translate inline assembly for unfamiliar architecture"@),
            ),
            Some(arch) => if refers_to_label(template, (outputs.len() + inputs.len()) as int) {
                Err(label_error())
            } else {
                match parsed_operands(inputs, arch) {
                    Err(e) => Err(e),
                    Ok(ins) => match parsed_operands(outputs, arch) {
                        Err(e) => Err(e),
                        Ok(outs) => planned_with(
                            template,
                            ties(inputs, outputs.len()),
                            ins,
                            outs,
                            arch,
                        ),
                    },
                }
            },
        }
    }
}

/// A plan or an error, viewed.
pub open spec fn plan_view(r: TranslationResult<AsmPlan>) -> Result<PlanView, ErrorView> {
    match r {
        Ok(plan) => Ok(plan@),
        Err(e) => Err(e@),
    }
}

fn operand_is_referenced(op: &BidirAsmOperand, refs: &HashSet<usize>) -> (res: bool)
    ensures
        res == is_referenced(op@, refs@),
{
    if let Some((idx, _)) = op.out_expr {
        if refs.contains(&idx) {
            return true;
        }
    }
    match op.in_expr {
        Some((idx, _)) => refs.contains(&idx),
        None => false,
    }
}

/// Appends comments that mention the operands that the template does not refer
/// to, and tells whether there are any.
///
/// `asm!` asks of every operand that it appears in the template at least once.
/// Comments are stripped before assembly, so this changes no instruction.
fn push_usage_comments(
    text: &mut Vec<char>,
    ops: &Vec<BidirAsmOperand>,
    refs: &HashSet<usize>,
) -> (res: bool)
    ensures
        final(text)@ == old(text)@ + usage_comments(operand_views(ops@), refs@),
        res == some_unreferenced(operand_views(ops@), refs@),
{
    let ghost views = operand_views(ops@);
    let mut found: bool = false;
    let mut k: usize = 0;
    while k < ops.len()
        invariant
            k <= ops@.len(),
            views == operand_views(ops@),
            text@ == old(text)@ + usage_comments(views.take(k as int), refs@),
            found == some_unreferenced(views.take(k as int), refs@),
        decreases ops@.len() - k,
    {
        let ghost next = views.take(k + 1);
        let ghost before = text@;
        proof {
            assert(next.drop_last() == views.take(k as int));
            assert(next.last() == ops@[k as int]@);
            if some_unreferenced(views.take(k as int), refs@) {
                let j = choose|j: int|
                    0 <= j < k && !is_referenced(#[trigger] views.take(k as int)[j], refs@);
                assert(!is_referenced(next[j], refs@));
            }
            if some_unreferenced(next, refs@) && is_referenced(next.last(), refs@) {
                let j = choose|j: int|
                    0 <= j < k + 1 && !is_referenced(#[trigger] next[j], refs@);
                assert(!is_referenced(views.take(k as int)[j], refs@));
            }
        }
        if !operand_is_referenced(&ops[k], refs) {
            push_text(text, "/* {");
            let number = decimal_text(k);
            push_all(text, number.as_slice());
            push_text(text, "} */\n");
            assert(text@ == before + usage_comment(k as nat));
            found = true;
            assert(!is_referenced(next[k as int], refs@));
        }
        k += 1;
        assert(text@ == old(text)@ + usage_comments(next, refs@));
    }
    assert(views.take(views.len() as int) == views);
    found
}

fn collect_mem_only(outs: &Vec<ParsedOperand>, ins: &Vec<ParsedOperand>) -> (res: Vec<bool>)
    ensures
        res@ == mem_only_flags(parsed_views(outs@), parsed_views(ins@)),
{
    let mut flags: Vec<bool> = Vec::new();
    let mut i: usize = 0;
    while i < outs.len()
        invariant
            i <= outs@.len(),
            flags@ == Seq::new(i as nat, |k: int| parsed_views(outs@)[k].mem_only),
        decreases outs@.len() - i,
    {
        flags.push(outs[i].mem_only);
        i += 1;
    }
    let ghost first = flags@;
    let mut j: usize = 0;
    while j < ins.len()
        invariant
            j <= ins@.len(),
            flags@ == first + Seq::new(j as nat, |k: int| parsed_views(ins@)[k].mem_only),
        decreases ins@.len() - j,
    {
        flags.push(ins[j].mem_only);
        j += 1;
    }
    flags
}

/// Plans an `asm!` for a template and its parsed operands.
fn plan_with(
    template: &str,
    tied: TiedOperands,
    ins: &Vec<ParsedOperand>,
    outs: &Vec<ParsedOperand>,
    arch: Arch,
) -> (res: TranslationResult<AsmPlan>)
    requires
        tied.wf(),
        ins@.len() + outs@.len() <= usize::MAX,
    ensures
        plan_view(res) == planned_with(
            template@,
            tied@,
            parsed_views(ins@),
            parsed_views(outs@),
            arch,
        ),
        res matches Ok(plan) ==> plan.tied.wf(),
{
    let refs = referenced_operand_indices(template);
    let att_syntax = (arch == Arch::X86 || arch == Arch::X86_64) && asm_is_att_syntax(template);
    let args = unify_operands(ins.as_slice(), outs.as_slice(), &refs);
    let mut operands = sort_positional_first(args);
    let (prolog, epilog) = rewrite_reserved_reg_operands(att_syntax, arch, &mut operands);
    let table = OperandTable {
        operands,
        mem_only: collect_mem_only(outs, ins),
    };
    let ghost moved = reserved_moved(
        positional_first(
            unified(parsed_views(ins@), parsed_views(outs@), references(template@).to_set()),
        ),
        att_syntax,
        arch,
    );
    match rewrite_asm(template, att_syntax, &table, arch) {
        Err(e) => Err(e),
        Ok(rewritten_text) => {
            let mut text = chars_of(prolog.as_str());
            push_text(&mut text, rewritten_text.as_str());
            push_text(&mut text, epilog.as_str());
            assert(text@ == moved.prolog + rewritten_text@ + moved.epilog);
            let comment_only_operand = push_usage_comments(&mut text, &table.operands, &refs);
            let plan = AsmPlan {
                arch,
                operands: table.operands,
                tied,
                text: string_of(text.as_slice()),
                att_syntax,
                comment_only_operand,
            };
            if plan.ties_lead_back() {
                Ok(plan)
            } else {
                Err(
                    TranslationError::generic(
                        "an input operand is tied to an output that has no operand before it",
                    ),
                )
            }
        },
    }
}

impl Translation {
    /// Plans the `asm!` for an inline-assembly statement: its operands in their
    /// final order and its template.
    ///
    /// Label operands, which a template refers to by indices behind all outputs
    /// and inputs, are rejected. A constraint without a known translation fails
    /// the whole statement: no output rather than wrong output.
    pub fn plan_asm(&self, template: &str, inputs: &[AsmOperand], outputs: &[AsmOperand]) -> (res:
        TranslationResult<AsmPlan>)
        requires
            inputs@.len() + outputs@.len() <= usize::MAX,
        ensures
            plan_view(res) == planned(
                self.translate_asm,
                self.target@,
                template@,
                source_views(inputs@),
                source_views(outputs@),
            ),
            res matches Ok(plan) ==> plan.tied.wf(),
    {
        if !self.translate_asm {
            return Err(TranslationError::generic("Inline assembly translation not enabled."));
        }
        let arch = match parse_arch(self.target.as_str()) {
            Some(arch) => arch,
            None => return Err(
                TranslationError::generic(
                    "Cannot translate inline assembly for unfamiliar architecture",
                ),
            ),
        };
        if references_operand_at_or_beyond(template, outputs.len() + inputs.len()) {
            return Err(
                TranslationError::generic(
                    "Cannot translate GNU asm goto (extended asm with label operands): label operands are not extracted from the Clang AST and have no Rust `asm!` equivalent that can be generated automatically.",
                ),
            );
        }
        let tied = find_ties(inputs, outputs.len());
        match parse_operands(inputs, arch) {
            Err(e) => Err(e),
            Ok(ins) => match parse_operands(outputs, arch) {
                Err(e) => Err(e),
                Ok(outs) => plan_with(template, tied, &ins, &outs, arch),
            },
        }
    }
}

/// One of the first `n` operands gives the output with this index and has the
/// locals that a cast needs.
pub open spec fn has_locals(
    ops: Seq<OperandView>,
    tied: Map<(usize, bool), usize>,
    output: usize,
    n: int,
) -> bool {
    exists|j: int|
        0 <= j < n && ((#[trigger] ops[j]).out_expr matches Some((idx, _)) && idx == output
            && tied.contains_key((idx, true)))
}

/// The operand with this number needs no cast, or the output that its input is
/// tied to has its locals by then.
pub open spec fn tie_leads_back(
    ops: Seq<OperandView>,
    tied: Map<(usize, bool), usize>,
    k: int,
) -> bool {
    match ops[k].in_expr {
        Some((input, _)) => tied.contains_key((input, false)) ==> has_locals(
            ops,
            tied,
            tied[(input, false)],
            k + 1,
        ),
        None => true,
    }
}

impl PlanView {
    /// Every tied input comes with or behind the output that it is tied to.
    pub open spec fn ties_lead_back(self) -> bool {
        forall|k: int|
            0 <= k < self.operands.len() ==> #[trigger] tie_leads_back(self.operands, self.tied, k)
    }
}

impl AsmPlan {
    fn output_has_locals(&self, output: usize, n: usize) -> (res: bool)
        requires
            self.tied.wf(),
            n <= self.operands@.len(),
        ensures
            res == has_locals(operand_views(self.operands@), self.tied@, output, n as int),
    {
        let ghost views = operand_views(self.operands@);
        let mut j: usize = 0;
        while j < n
            invariant
                j <= n <= self.operands@.len(),
                self.tied.wf(),
                views == operand_views(self.operands@),
                !has_locals(views, self.tied@, output, j as int),
            decreases n - j,
        {
            assert(views[j as int] == self.operands@[j as int]@);
            if let Some((idx, _)) = self.operands[j].out_expr {
                if idx == output && self.tied.get((idx, true)).is_some() {
                    return true;
                }
            }
            j += 1;
        }
        false
    }

    /// Whether every tied input comes with or behind the output that it is tied
    /// to.
    fn ties_lead_back(&self) -> (res: bool)
        requires
            self.tied.wf(),
        ensures
            res == self@.ties_lead_back(),
    {
        let ghost views = operand_views(self.operands@);
        let mut k: usize = 0;
        while k < self.operands.len()
            invariant
                k <= self.operands@.len(),
                self.tied.wf(),
                views == operand_views(self.operands@),
                forall|j: int| 0 <= j < k ==> #[trigger] tie_leads_back(views, self.tied@, j),
            decreases self.operands@.len() - k,
        {
            assert(views[k as int] == self.operands@[k as int]@);
            if let Some((input, _)) = self.operands[k].in_expr {
                if let Some(output) = self.tied.get((input, false)) {
                    if !self.output_has_locals(output, k + 1) {
                        assert(!tie_leads_back(self@.operands, self@.tied, k as int));
                        return false;
                    }
                }
            }
            k += 1;
        }
        true
    }
}

/// What an inline-assembly statement becomes.
#[derive(Debug)]
pub struct AsmConversion {
    /// The statements before the `asm!`.
    pub setup: Vec<AsmStmt>,
    /// The arguments of the `asm!`.
    pub call: AsmCall,
    /// The statements behind the `asm!`.
    pub casts: Vec<CastOut>,
    /// The clobbers of reserved registers, which had to be dropped.
    pub reserved_clobbers: Vec<String>,
    /// Whether the feature `raw_ref_op` is used.
    pub uses_raw_ref: bool,
    /// Whether the crate `c2rust_asm_casts` and its trait `AsmCastTrait` are
    /// used.
    pub uses_asm_casts: bool,
}

/// What an [`AsmConversion`] says.
#[verifier::ext_equal]
pub struct ConversionView {
    pub setup: Seq<AsmStmt>,
    pub call: CallView,
    pub casts: Seq<CastOut>,
    pub reserved_clobbers: Seq<Seq<char>>,
    pub uses_raw_ref: bool,
    pub uses_asm_casts: bool,
}

impl View for AsmConversion {
    type V = ConversionView;

    open spec fn view(&self) -> ConversionView {
        ConversionView {
            setup: self.setup@,
            call: self.call@,
            casts: self.casts@,
            reserved_clobbers: strings(self.reserved_clobbers@),
            uses_raw_ref: self.uses_raw_ref,
            uses_asm_casts: self.uses_asm_casts,
        }
    }
}

/// The lines of a template, each with a line feed.
pub open spec fn template_lines(text: Seq<char>) -> Seq<Seq<char>> {
    Seq::new(split(text, '\n').len(), |i: int| split(text, '\n')[i] + "\n"@)
}

/// Some operand is written to.
pub open spec fn has_real_output(ops: Seq<OperandView>) -> bool {
    exists|k: int| 0 <= k < ops.len() && (#[trigger] ops[k]).dir_spec !is In
}

/// What a plan becomes.
pub open spec fn converted(
    plan: PlanView,
    is_volatile: bool,
    clobbers: Seq<Seq<char>>,
) -> ConversionView {
    let ops = lowered(plan.operands, plan.tied);
    let registers = register_clobbers(clobbers, plan.arch);
    let options = asm_options(
        AsmTraits {
            is_volatile,
            preserves_flags: !clobbers.contains("cc"@),
            read_only: !clobbers.contains("memory"@),
            comment_only_operand: plan.comment_only_operand,
            has_output: has_real_output(plan.operands) || registers.len() > 0,
            att_syntax: plan.att_syntax,
        },
    );
    ConversionView {
        setup: ops.setup,
        call: CallView {
            template: template_lines(plan.text),
            args: ops.args,
            clobbers: registers,
            options,
        },
        casts: ops.casts,
        reserved_clobbers: reserved_clobbers(clobbers, plan.arch),
        uses_raw_ref: ops.uses_raw_ref,
        uses_asm_casts: ops.casts.len() > 0,
    }
}

fn lines_of(text: &String) -> (res: Vec<String>)
    ensures
        strings(res@) == template_lines(text@),
{
    let cs = chars_of(text.as_str());
    let pieces = split_at_char(cs.as_slice(), '\n');
    let ghost all = split(text@, '\n');
    let mut lines: Vec<String> = Vec::new();
    let mut i: usize = 0;
    while i < pieces.len()
        invariant
            i <= pieces@.len(),
            all == split(text@, '\n'),
            texts(pieces@) == all,
            strings(lines@) == template_lines(text@).take(i as int),
        decreases pieces@.len() - i,
    {
        assert(all[i as int] == pieces@[i as int]@);
        let mut line: Vec<char> = Vec::new();
        push_all(&mut line, pieces[i].as_slice());
        push_text(&mut line, "\n");
        assert(line@ == template_lines(text@)[i as int]);
        let ghost before = lines@;
        let string = string_of(line.as_slice());
        lines.push(string);
        assert(strings(lines@) =~= strings(before).push(string@));
        i += 1;
    }
    lines
}

fn writes_something(ops: &Vec<BidirAsmOperand>) -> (res: bool)
    ensures
        res == has_real_output(operand_views(ops@)),
{
    let ghost views = operand_views(ops@);
    let mut k: usize = 0;
    while k < ops.len()
        invariant
            k <= ops@.len(),
            views == operand_views(ops@),
            !has_real_output(views.take(k as int)),
        decreases ops@.len() - k,
    {
        assert(views[k as int] == ops@[k as int]@);
        if ops[k].dir_spec != ArgDirSpec::In {
            assert(views[k as int].dir_spec !is In);
            return true;
        }
        assert(!has_real_output(views.take(k + 1))) by {
            if has_real_output(views.take(k + 1)) {
                let j = choose|j: int|
                    0 <= j < k + 1 && (#[trigger] views.take(k + 1)[j]).dir_spec !is In;
                assert(views.take(k as int)[j].dir_spec !is In);
            }
        }
        k += 1;
    }
    assert(views.take(views.len() as int) == views);
    false
}

impl AsmPlan {
    /// Makes an `asm!` and the statements around it of a plan.
    fn into_conversion(self, is_volatile: bool, clobbers: &[String]) -> (res: AsmConversion)
        requires
            self.tied.wf(),
        ensures
            res@ == converted(self@, is_volatile, strings(clobbers@)),
    {
        let lowered_ops = lower_operands(&self.operands, &self.tied);
        let sorted = sort_clobbers(clobbers, self.arch);
        let has_output = writes_something(&self.operands) || sorted.registers.len() > 0;
        let options = pick_options(
            AsmTraits {
                is_volatile,
                preserves_flags: sorted.preserves_flags,
                read_only: sorted.read_only,
                comment_only_operand: self.comment_only_operand,
                has_output,
                att_syntax: self.att_syntax,
            },
        );
        let uses_asm_casts = lowered_ops.casts.len() > 0;
        AsmConversion {
            setup: lowered_ops.setup,
            call: AsmCall {
                template: lines_of(&self.text),
                args: lowered_ops.args,
                clobbers: sorted.registers,
                options,
            },
            casts: lowered_ops.casts,
            reserved_clobbers: sorted.reserved,
            uses_raw_ref: lowered_ops.uses_raw_ref,
            uses_asm_casts,
        }
    }
}

/// The warnings about a statement: those about the first operand without a
/// meaning, inputs before outputs, if the operands are looked at.
pub open spec fn statement_warnings(
    translate_asm: bool,
    target: Seq<char>,
    template: Seq<char>,
    inputs: Seq<SourceView>,
    outputs: Seq<SourceView>,
) -> Seq<Seq<char>> {
    match arch_of(target) {
        Some(arch) => if !translate_asm || refers_to_label(
            template,
            (outputs.len() + inputs.len()) as int,
        ) {
            Seq::empty()
        } else if parsed_operands(inputs, arch) is Err {
            operand_warnings(inputs, arch)
        } else {
            operand_warnings(outputs, arch)
        },
        None => Seq::empty(),
    }
}

impl Translation {
    /// What to warn about when a statement is converted.
    pub fn asm_warnings(
        &self,
        template: &str,
        inputs: &[AsmOperand],
        outputs: &[AsmOperand],
    ) -> (res: Vec<String>)
        requires
            inputs@.len() + outputs@.len() <= usize::MAX,
        ensures
            strings(res@) == statement_warnings(
                self.translate_asm,
                self.target@,
                template@,
                source_views(inputs@),
                source_views(outputs@),
            ),
    {
        let none: Vec<String> = Vec::new();
        assert(strings(none@) =~= Seq::<Seq<char>>::empty());
        match parse_arch(self.target.as_str()) {
            Some(arch) => {
                if !self.translate_asm || references_operand_at_or_beyond(
                    template,
                    outputs.len() + inputs.len(),
                ) {
                    none
                } else if parse_operands(inputs, arch).is_err() {
                    warn_about_operands(inputs, arch)
                } else {
                    warn_about_operands(outputs, arch)
                }
            },
            None => none,
        }
    }

    /// Convert an inline-assembly statement into one or more Rust statements.
    /// If inline assembly translation is not enabled this will result in an
    /// error message instead of a conversion.
    ///
    /// The statements are `setup`, then the `asm!` with the arguments `call`,
    /// then `casts`.
    pub fn convert_asm(
        &self,
        is_volatile: bool,
        template: &str,
        inputs: &[AsmOperand],
        outputs: &[AsmOperand],
        clobbers: &[String],
    ) -> (res: TranslationResult<AsmConversion>)
        requires
            inputs@.len() + outputs@.len() <= usize::MAX,
        ensures
            match planned(
                self.translate_asm,
                self.target@,
                template@,
                source_views(inputs@),
                source_views(outputs@),
            ) {
                Ok(plan) => res matches Ok(conversion) && conversion@ == converted(
                    plan,
                    is_volatile,
                    strings(clobbers@),
                ),
                Err(err) => res matches Err(e) && e@ == err,
            },
    {
        match self.plan_asm(template, inputs, outputs) {
            Ok(plan) => Ok(plan.into_conversion(is_volatile, clobbers)),
            Err(e) => Err(e),
        }
    }
}

proof fn lemma_comment_occurs(ops: Seq<OperandView>, refs: Set<usize>, k: int)
    requires
        0 <= k < ops.len(),
        !is_referenced(ops[k], refs),
    ensures
        occurs(usage_comments(ops, refs), usage_comment(k as nat)),
    decreases ops.len(),
{
    let all = usage_comments(ops, refs);
    let before = usage_comments(ops.drop_last(), refs);
    let comment = usage_comment(k as nat);
    if k == ops.len() - 1 {
        let at = before.len() as int;
        assert(all.subrange(at, at + comment.len()) =~= comment);
        assert(occurs_at(all, comment, at));
    } else {
        lemma_comment_occurs(ops.drop_last(), refs, k);
        let i = choose|i: int| #[trigger] occurs_at(before, comment, i);
        assert(all.subrange(i, i + comment.len()) =~= before.subrange(i, i + comment.len()));
        assert(occurs_at(all, comment, i));
    }
}

/// Every operand appears in the template: one that the template does not refer
/// to is mentioned in a comment.
pub proof fn law_every_operand_appears(
    template: Seq<char>,
    tied: Map<(usize, bool), usize>,
    ins: Seq<ParsedView>,
    outs: Seq<ParsedView>,
    arch: Arch,
    k: int,
)
    ensures
        planned_with(template, tied, ins, outs, arch) matches Ok(plan) ==> 0 <= k
            < plan.operands.len() && !is_referenced(
            plan.operands[k],
            references(template).to_set(),
        ) ==> occurs(plan.text, usage_comment(k as nat)) && plan.comment_only_operand,
{
    if let Ok(plan) = planned_with(template, tied, ins, outs, arch) {
        let refs = references(template).to_set();
        if 0 <= k < plan.operands.len() && !is_referenced(plan.operands[k], refs) {
            let comments = usage_comments(plan.operands, refs);
            let comment = usage_comment(k as nat);
            let start = plan.text.len() - comments.len();
            lemma_comment_occurs(plan.operands, refs, k);
            let i = choose|i: int| #[trigger] occurs_at(comments, comment, i);
            assert(plan.text.skip(start) =~= comments);
            assert(plan.text.subrange(start + i, start + i + comment.len()) =~= comments.subrange(
                i,
                i + comment.len(),
            ));
            assert(occurs_at(plan.text, comment, start + i));
        }
    }
}

/// `pure` is given exactly to a statement that is not volatile, whose clobbers
/// do not speak of memory, whose operands all occur outside comments, and that
/// writes an operand or a register. It never comes without `readonly`.
pub proof fn law_pure(plan: PlanView, is_volatile: bool, clobbers: Seq<Seq<char>>)
    ensures
        ({
            let call = converted(plan, is_volatile, clobbers).call;
            &&& call.options.contains(AsmOption::Pure) <==> !is_volatile && !clobbers.contains(
                "memory"@,
            ) && !plan.comment_only_operand && ((exists|k: int|
                0 <= k < plan.operands.len() && (#[trigger] plan.operands[k]).dir_spec
                    != ArgDirSpec::In) || call.clobbers.len() > 0)
            &&& call.options.contains(AsmOption::Readonly) <==> call.options.contains(
                AsmOption::Pure,
            )
        }),
{
    let t = AsmTraits {
        is_volatile,
        preserves_flags: !clobbers.contains("cc"@),
        read_only: !clobbers.contains("memory"@),
        comment_only_operand: plan.comment_only_operand,
        has_output: has_real_output(plan.operands) || register_clobbers(
            clobbers,
            plan.arch,
        ).len() > 0,
        att_syntax: plan.att_syntax,
    };
    let options = asm_options(t);
    let flags: int = if t.preserves_flags {
        1
    } else {
        0
    };
    if is_pure(t) {
        assert(options[flags] == AsmOption::Pure);
        assert(options[flags + 1] == AsmOption::Readonly);
    }
}

/// The statements hold the locals for the output with this index.
pub open spec fn binds_output(setup: Seq<AsmStmt>, output: usize) -> bool {
    &&& exists|i: int|
        0 <= i < setup.len() && (#[trigger] setup[i] matches AsmStmt::LetOutput { output: o, .. }
            && o == output)
    &&& exists|i: int|
        0 <= i < setup.len() && (#[trigger] setup[i] matches AsmStmt::LetInner { output: o }
            && o == output)
}

/// The statements hold the local for the input with this index.
pub open spec fn binds_input(setup: Seq<AsmStmt>, input: usize) -> bool {
    exists|i: int|
        0 <= i < setup.len() && (#[trigger] setup[i] matches AsmStmt::LetInput { input: n, .. }
            && n == input)
}

proof fn lemma_binds_more(setup: Seq<AsmStmt>, more: Seq<AsmStmt>, idx: usize)
    ensures
        binds_output(setup, idx) ==> binds_output(setup + more, idx),
        binds_input(setup, idx) ==> binds_input(setup + more, idx),
{
    let all = setup + more;
    if binds_output(setup, idx) {
        let i = choose|i: int|
            0 <= i < setup.len() && (#[trigger] setup[i] matches AsmStmt::LetOutput {
                output: o,
                ..
            } && o == idx);
        assert(all[i] == setup[i]);
        let j = choose|j: int|
            0 <= j < setup.len() && (#[trigger] setup[j] matches AsmStmt::LetInner { output: o }
                && o == idx);
        assert(all[j] == setup[j]);
    }
    if binds_input(setup, idx) {
        let i = choose|i: int|
            0 <= i < setup.len() && (#[trigger] setup[i] matches AsmStmt::LetInput {
                input: n,
                ..
            } && n == idx);
        assert(all[i] == setup[i]);
    }
}

proof fn lemma_output_bound(
    ops: Seq<OperandView>,
    tied: Map<(usize, bool), usize>,
    output: usize,
    n: int,
)
    requires
        0 <= n <= ops.len(),
        has_locals(ops, tied, output, n),
    ensures
        binds_output(lowered(ops.take(n), tied).setup, output),
    decreases n,
{
    let j = choose|j: int|
        0 <= j < n && ((#[trigger] ops[j]).out_expr matches Some((idx, _)) && idx == output
            && tied.contains_key((idx, true)));
    let front = ops.take(n);
    assert(front.drop_last() == ops.take(n - 1));
    let before = lowered(ops.take(n - 1), tied).setup;
    let own = output_setup(ops[n - 1], tied);
    let rest = input_setup(ops[n - 1], tied);
    if j == n - 1 {
        let at = before.len() as int;
        assert((before + own)[at + 1] == own[1]);
        assert((before + own)[at + 2] == own[2]);
        assert(binds_output(before + own, output));
        lemma_binds_more(before + own, rest, output);
    } else {
        assert(ops[j] == ops.take(n - 1)[j]);
        assert(has_locals(ops, tied, output, n - 1));
        lemma_output_bound(ops, tied, output, n - 1);
        lemma_binds_more(before, own, output);
        lemma_binds_more(before + own, rest, output);
    }
}

/// Whatever a cast of a converted statement mentions has its locals.
pub proof fn law_casts_have_locals(
    template: Seq<char>,
    tied: Map<(usize, bool), usize>,
    ins: Seq<ParsedView>,
    outs: Seq<ParsedView>,
    arch: Arch,
    is_volatile: bool,
    clobbers: Seq<Seq<char>>,
)
    ensures
        planned_with(template, tied, ins, outs, arch) matches Ok(plan) ==> ({
            let conversion = converted(plan, is_volatile, clobbers);
            forall|c: int|
                0 <= c < conversion.casts.len() ==> binds_output(
                    conversion.setup,
                    (#[trigger] conversion.casts[c]).output,
                ) && binds_input(conversion.setup, conversion.casts[c].input)
        }),
{
    if let Ok(plan) = planned_with(template, tied, ins, outs, arch) {
        lemma_casts_have_locals(plan, plan.operands.len() as int);
        assert(plan.operands.take(plan.operands.len() as int) == plan.operands);
    }
}

proof fn lemma_casts_have_locals(plan: PlanView, n: int)
    requires
        plan.ties_lead_back(),
        0 <= n <= plan.operands.len(),
    ensures
        ({
            let ops = lowered(plan.operands.take(n), plan.tied);
            forall|c: int|
                0 <= c < ops.casts.len() ==> binds_output(
                    ops.setup,
                    (#[trigger] ops.casts[c]).output,
                ) && binds_input(ops.setup, ops.casts[c].input)
        }),
    decreases n,
{
    if n > 0 {
        lemma_casts_have_locals(plan, n - 1);
        let op = plan.operands[n - 1];
        let front = plan.operands.take(n);
        assert(front.drop_last() == plan.operands.take(n - 1));
        let before = lowered(plan.operands.take(n - 1), plan.tied);
        let ops = lowered(front, plan.tied);
        let own = output_setup(op, plan.tied);
        let rest = input_setup(op, plan.tied);
        assert(tie_leads_back(plan.operands, plan.tied, n - 1));
        assert forall|c: int| 0 <= c < ops.casts.len() implies binds_output(
            ops.setup,
            (#[trigger] ops.casts[c]).output,
        ) && binds_input(ops.setup, ops.casts[c].input) by {
            let output = ops.casts[c].output;
            let input = ops.casts[c].input;
            if c < before.casts.len() {
                assert(ops.casts[c] == before.casts[c]);
                lemma_binds_more(before.setup, own, output);
                lemma_binds_more(before.setup + own, rest, output);
                lemma_binds_more(before.setup, own, input);
                lemma_binds_more(before.setup + own, rest, input);
            } else {
                lemma_output_bound(plan.operands, plan.tied, output, n);
                let at = (before.setup.len() + own.len()) as int;
                assert(ops.setup[at + 1] == rest[1]);
            }
        }
    }
}

proof fn lemma_lines_join(pieces: Seq<Seq<char>>, lines: Seq<Seq<char>>)
    requires
        pieces.len() >= 1,
        lines.len() == pieces.len(),
        forall|i: int| 0 <= i < pieces.len() ==> #[trigger] lines[i] == pieces[i] + seq!['\n'],
    ensures
        join(lines, Seq::empty()) == join(pieces, seq!['\n']) + seq!['\n'],
    decreases pieces.len(),
{
    if pieces.len() > 1 {
        let front = lines.drop_last();
        assert forall|i: int| 0 <= i < front.len() implies #[trigger] front[i]
            == pieces.drop_last()[i] + seq!['\n'] by {
            assert(front[i] == lines[i]);
        }
        lemma_lines_join(pieces.drop_last(), front);
        assert(lines[lines.len() - 1] == pieces.last() + seq!['\n']);
        assert(join(lines, Seq::empty()) =~= join(pieces, seq!['\n']) + seq!['\n']);
    } else {
        assert(lines[0] == pieces[0] + seq!['\n']);
    }
}

/// The lines of a template, one behind the other, are the template and a line
/// feed.
pub proof fn law_lines_keep_text(text: Seq<char>)
    ensures
        join(template_lines(text), Seq::empty()) == text.push('\n'),
{
    reveal_strlit("\n");
    assert("\n"@ =~= seq!['\n']);
    let pieces = split(text, '\n');
    lemma_split_pieces(text, '\n');
    law_join_split(text, '\n');
    lemma_lines_join(pieces, template_lines(text));
    assert(text + seq!['\n'] =~= text.push('\n'));
}

/// One of the operands has this input and this output.
pub open spec fn carries(ops: Seq<OperandView>, op: OperandView) -> bool {
    exists|k: int|
        0 <= k < ops.len() && (#[trigger] ops[k]).in_expr == op.in_expr && ops[k].out_expr
            == op.out_expr
}

proof fn lemma_sorting_keeps(ops: Seq<OperandView>, k: int)
    requires
        0 <= k < ops.len(),
    ensures
        carries(only(ops, ops[k].positional()), ops[k]),
    decreases ops.len(),
{
    let side = ops[k].positional();
    let all = only(ops, side);
    if k == ops.len() - 1 {
        assert(all[all.len() - 1] == ops[k]);
    } else {
        lemma_sorting_keeps(ops.drop_last(), k);
        let before = only(ops.drop_last(), side);
        let j = choose|j: int|
            0 <= j < before.len() && (#[trigger] before[j]).in_expr == ops[k].in_expr
                && before[j].out_expr == ops[k].out_expr;
        assert(all[j] == before[j]);
    }
}

proof fn lemma_moves_keep(ops: Seq<OperandView>, att: bool, arch: Arch, n: nat, op: OperandView)
    requires
        n <= rewrites(ops, arch).len(),
        carries(ops, op),
    ensures
        after_moves(ops, att, arch, n).ops.len() == ops.len(),
        carries(after_moves(ops, att, arch, n).ops, op),
    decreases n,
{
    if n > 0 {
        lemma_moves_keep(ops, att, arch, (n - 1) as nat, op);
        lemma_rewrites(ops, arch);
        lemma_only_counts(ops);
        let prev = after_moves(ops, att, arch, (n - 1) as nat).ops;
        let next = after_moves(ops, att, arch, n).ops;
        let i = rewrites(ops, arch)[n - 1].idx;
        let j = only(ops, true).len() + n - 1;
        assert(0 <= i < ops.len());
        assert(0 <= j < ops.len());
        let k = choose|k: int|
            0 <= k < prev.len() && (#[trigger] prev[k]).in_expr == op.in_expr && prev[k].out_expr
                == op.out_expr;
        let to = if k == i {
            j
        } else if k == j {
            i
        } else {
            k
        };
        assert(next[to].in_expr == op.in_expr && next[to].out_expr == op.out_expr);
    }
}

proof fn lemma_plan_carries(
    template: Seq<char>,
    tied: Map<(usize, bool), usize>,
    ins: Seq<ParsedView>,
    outs: Seq<ParsedView>,
    arch: Arch,
    k: int,
)
    requires
        0 <= k < unified(ins, outs, references(template).to_set()).len(),
    ensures
        planned_with(template, tied, ins, outs, arch) matches Ok(plan) ==> carries(
            plan.operands,
            unified(ins, outs, references(template).to_set())[k],
        ),
{
    let ops = unified(ins, outs, references(template).to_set());
    let att = (arch is X86 || arch is X86_64) && is_att(template);
    let sorted = positional_first(ops);
    lemma_sorting_keeps(ops, k);
    let side = only(ops, ops[k].positional());
    let j = choose|j: int|
        0 <= j < side.len() && (#[trigger] side[j]).in_expr == ops[k].in_expr && side[j].out_expr
            == ops[k].out_expr;
    let at = if ops[k].positional() {
        j
    } else {
        only(ops, true).len() + j
    };
    assert(sorted[at] == side[j]);
    lemma_moves_keep(sorted, att, arch, rewrites(sorted, arch).len(), ops[k]);
}

/// No operand gets lost on the way into the `asm!`: every output that the
/// template refers to is given by an operand, and every input is taken by one,
/// but for an input whose explicit register or output index a later input has
/// too.
pub proof fn law_plan_keeps_operands(
    template: Seq<char>,
    tied: Map<(usize, bool), usize>,
    ins: Seq<ParsedView>,
    outs: Seq<ParsedView>,
    arch: Arch,
)
    requires
        ins.len() + outs.len() <= usize::MAX,
    ensures
        planned_with(template, tied, ins, outs, arch) matches Ok(plan) ==> {
            &&& forall|o: usize|
                o < outs.len() && #[trigger] references(template).to_set().contains(o)
                    ==> gives_output(plan.operands, (o, outs[o as int].expression))
            &&& forall|i: int|
                0 <= i < ins.len() && (!names_register_or_index((#[trigger] ins[i]).constraints)
                    || counts_for_register(ins, i)) ==> takes_input(
                    plan.operands,
                    ((i + outs.len()) as usize, ins[i].expression),
                )
        },
{
    if let Ok(plan) = planned_with(template, tied, ins, outs, arch) {
        let refs = references(template).to_set();
        let ops = unified(ins, outs, refs);
        law_no_operand_lost(ins, outs, refs);
        assert forall|o: usize| o < outs.len() && #[trigger] refs.contains(o) implies gives_output(
            plan.operands,
            (o, outs[o as int].expression),
        ) by {
            let output = Some((o, outs[o as int].expression));
            let k = choose|k: int| 0 <= k < ops.len() && (#[trigger] ops[k]).out_expr == output;
            lemma_plan_carries(template, tied, ins, outs, arch, k);
            let j = choose|j: int|
                0 <= j < plan.operands.len() && (#[trigger] plan.operands[j]).in_expr
                    == ops[k].in_expr && plan.operands[j].out_expr == ops[k].out_expr;
            assert(plan.operands[j].out_expr == output);
        }
        assert forall|i: int|
            0 <= i < ins.len() && (!names_register_or_index((#[trigger] ins[i]).constraints)
                || counts_for_register(ins, i)) implies takes_input(
            plan.operands,
            ((i + outs.len()) as usize, ins[i].expression),
        ) by {
            let input = Some(((i + outs.len()) as usize, ins[i].expression));
            let k = choose|k: int| 0 <= k < ops.len() && (#[trigger] ops[k]).in_expr == input;
            lemma_plan_carries(template, tied, ins, outs, arch, k);
            let j = choose|j: int|
                0 <= j < plan.operands.len() && (#[trigger] plan.operands[j]).in_expr
                    == ops[k].in_expr && plan.operands[j].out_expr == ops[k].out_expr;
            assert(plan.operands[j].in_expr == input);
        }
    }
}

/// The place of an operand in the order that `asm!` asks for: positional
/// operands, then named ones, then explicit registers.
pub open spec fn operand_rank(op: OperandView) -> int {
    if op.positional() {
        0
    } else if op.name is Some {
        1
    } else {
        2
    }
}

proof fn lemma_unified_unnamed(
    ins: Seq<ParsedView>,
    outs: Seq<ParsedView>,
    refs: Set<usize>,
    n: nat,
)
    ensures
        forall|k: int|
            0 <= k < paired(ins, outs, refs, n).args.len() ==> (#[trigger] paired(
                ins,
                outs,
                refs,
                n,
            ).args[k]).name is None,
    decreases n,
{
    if n > 0 {
        lemma_unified_unnamed(ins, outs, refs, (n - 1) as nat);
    }
}

proof fn lemma_only_unnamed(ops: Seq<OperandView>, positional: bool)
    requires
        forall|k: int| 0 <= k < ops.len() ==> (#[trigger] ops[k]).name is None,
    ensures
        forall|k: int|
            0 <= k < only(ops, positional).len() ==> (#[trigger] only(ops, positional)[k]).name
                is None,
    decreases ops.len(),
{
    if ops.len() > 0 {
        let front = ops.drop_last();
        assert forall|k: int| 0 <= k < front.len() implies (#[trigger] front[k]).name is None by {
            assert(front[k] == ops[k]);
        }
        lemma_only_unnamed(front, positional);
        assert(ops[ops.len() - 1].name is None);
    }
}

/// The operands of a plan stand in the order that `asm!` asks for, positional
/// operands, then named ones, then explicit registers, and none of them is in a
/// register that the compiler keeps for itself.
pub proof fn law_plan_orders_operands(
    template: Seq<char>,
    tied: Map<(usize, bool), usize>,
    ins: Seq<ParsedView>,
    outs: Seq<ParsedView>,
    arch: Arch,
)
    ensures
        planned_with(template, tied, ins, outs, arch) matches Ok(plan) ==> {
            &&& forall|i: int, j: int|
                0 <= i < j < plan.operands.len() ==> operand_rank(#[trigger] plan.operands[i])
                    <= operand_rank(#[trigger] plan.operands[j])
            &&& forall|i: int|
                0 <= i < plan.operands.len() ==> !in_reserved_register(
                    #[trigger] plan.operands[i],
                    arch,
                )
        },
{
    if let Ok(plan) = planned_with(template, tied, ins, outs, arch) {
        let refs = references(template).to_set();
        let ops = unified(ins, outs, refs);
        let att = (arch is X86 || arch is X86_64) && is_att(template);
        let sorted = positional_first(ops);
        let front = only(ops, true);
        let back = only(ops, false);
        lemma_unified_unnamed(ins, outs, refs, outs.len());
        lemma_only_unnamed(ops, true);
        lemma_only_unnamed(ops, false);
        lemma_only_counts(ops);
        assert(unnamed_positional_first(sorted)) by {
            assert forall|i: int, j: int|
                0 <= i < j < sorted.len() && (#[trigger] sorted[j]).positional() implies (
            #[trigger] sorted[i]).positional() by {
                if j >= front.len() {
                    assert(sorted[j] == back[j - front.len()]);
                } else {
                    assert(sorted[i] == front[i]);
                }
            }
            assert forall|i: int| 0 <= i < sorted.len() implies (#[trigger] sorted[i]).name
                is None by {
                if i < front.len() {
                    assert(sorted[i] == front[i]);
                } else {
                    assert(sorted[i] == back[i - front.len()]);
                }
            }
        }
        law_moved_operands_are_ordered(sorted, att, arch);
        lemma_positional_count(sorted);
        lemma_only_counts(sorted);
        lemma_rewrites(sorted, arch);
        let p = only(sorted, true).len();
        let m = rewrites(sorted, arch).len();
        assert forall|i: int, j: int| 0 <= i < j < plan.operands.len() implies operand_rank(
            #[trigger] plan.operands[i],
        ) <= operand_rank(#[trigger] plan.operands[j]) by {
            if i < p {
                assert(plan.operands[i] == sorted[i]);
                assert(sorted[i].positional());
            } else if i < p + m {
                assert(plan.operands[i].name is Some);
            }
            if j >= p && j < p + m {
                assert(plan.operands[j].name is Some);
            }
        }
    }
}

proof fn lemma_distinct_pair(ops: Seq<OperandView>, i: int, j: int)
    requires
        are_distinct(ops),
        0 <= i < ops.len(),
        0 <= j < ops.len(),
        i != j,
    ensures
        !clash(ops[i], ops[j]),
{
    if i < j {
        assert(!clash(ops[i], ops[j]));
    } else {
        assert(!clash(ops[j], ops[i]));
    }
}

/// Where the operand at place `k` of one part comes from.
pub proof fn lemma_only_source(ops: Seq<OperandView>, positional: bool, k: int) -> (i: int)
    requires
        0 <= k < only(ops, positional).len(),
    ensures
        0 <= i < ops.len(),
        k <= i,
        only(ops, positional)[k] == ops[i],
        only(ops.take(i), positional).len() == k,
        ops[i].positional() == positional,
    decreases ops.len(),
{
    let front = ops.drop_last();
    let before = only(front, positional);
    if k < before.len() {
        let i = lemma_only_source(front, positional, k);
        assert(front.take(i) =~= ops.take(i));
        i
    } else {
        let i = ops.len() - 1;
        assert(ops.take(i) =~= front);
        lemma_only_counts(front);
        i
    }
}

proof fn lemma_sorting_keeps_distinct(ops: Seq<OperandView>)
    requires
        are_distinct(ops),
    ensures
        are_distinct(positional_first(ops)),
{
    let sorted = positional_first(ops);
    let p = only(ops, true).len() as int;
    assert forall|a: int, b: int| 0 <= a < b < sorted.len() implies !#[trigger] clash(
        sorted[a],
        sorted[b],
    ) by {
        let i = if a < p {
            lemma_only_source(ops, true, a)
        } else {
            lemma_only_source(ops, false, a - p)
        };
        let j = if b < p {
            lemma_only_source(ops, true, b)
        } else {
            lemma_only_source(ops, false, b - p)
        };
        assert(i != j);
        lemma_distinct_pair(ops, i, j);
    }
}

proof fn lemma_moves_keep_distinct(ops: Seq<OperandView>, att: bool, arch: Arch, n: nat)
    requires
        n <= rewrites(ops, arch).len(),
        are_distinct(ops),
    ensures
        after_moves(ops, att, arch, n).ops.len() == ops.len(),
        are_distinct(after_moves(ops, att, arch, n).ops),
    decreases n,
{
    if n > 0 {
        lemma_moves_keep_distinct(ops, att, arch, (n - 1) as nat);
        lemma_rewrites(ops, arch);
        lemma_only_counts(ops);
        let prev = after_moves(ops, att, arch, (n - 1) as nat).ops;
        let next = after_moves(ops, att, arch, n).ops;
        let i = rewrites(ops, arch)[n - 1].idx;
        let j = only(ops, true).len() + n - 1;
        assert(0 <= i < ops.len());
        assert(0 <= j < ops.len());
        assert forall|a: int, b: int| 0 <= a < b < next.len() implies !#[trigger] clash(
            next[a],
            next[b],
        ) by {
            let a0 = if a == i {
                j
            } else if a == j {
                i
            } else {
                a
            };
            let b0 = if b == i {
                j
            } else if b == j {
                i
            } else {
                b
            };
            lemma_distinct_pair(prev, a0, b0);
            assert(next[a].in_expr == prev[a0].in_expr && next[a].out_expr == prev[a0].out_expr);
            assert(next[b].in_expr == prev[b0].in_expr && next[b].out_expr == prev[b0].out_expr);
        }
    }
}

/// No index is carried by two operands of a plan.
pub proof fn law_plan_operands_are_distinct(
    template: Seq<char>,
    tied: Map<(usize, bool), usize>,
    ins: Seq<ParsedView>,
    outs: Seq<ParsedView>,
    arch: Arch,
)
    requires
        ins.len() + outs.len() <= usize::MAX,
    ensures
        planned_with(template, tied, ins, outs, arch) matches Ok(plan) ==> are_distinct(
            plan.operands,
        ),
{
    let refs = references(template).to_set();
    let ops = unified(ins, outs, refs);
    let att = (arch is X86 || arch is X86_64) && is_att(template);
    let sorted = positional_first(ops);
    law_operands_are_distinct(ins, outs, refs);
    lemma_sorting_keeps_distinct(ops);
    lemma_moves_keep_distinct(sorted, att, arch, rewrites(sorted, arch).len());
}

/// In a planned statement, a reference to the operand with an index leads to the
/// operand that carries this index, and there is one only.
pub proof fn law_references_keep_their_operands(
    template: Seq<char>,
    tied: Map<(usize, bool), usize>,
    ins: Seq<ParsedView>,
    outs: Seq<ParsedView>,
    arch: Arch,
    i: int,
    idx: usize,
)
    requires
        ins.len() + outs.len() <= usize::MAX,
        refers_to(split(template, '$'), i, idx),
    ensures
        planned_with(template, tied, ins, outs, arch) matches Ok(plan) ==> {
            let chunks = split(template, '$');
            let table = planned_table(template, ins, outs, arch);
            &&& table.operands == plan.operands
            &&& exists|k: int|
                0 <= k < plan.operands.len() && #[trigger] plan.operands[k].at_orig_idx(
                    idx as int,
                ) && (forall|j: int|
                    0 <= j < plan.operands.len() && (#[trigger] plan.operands[j]).at_orig_idx(
                        idx as int,
                    ) ==> j == k) && (rewritten_chunk(
                    chunks,
                    i,
                    plan.att_syntax,
                    table,
                    template,
                    arch,
                ) matches Ok(text) && (reference_bracket(chunks[i], plan.att_syntax, table) + "{"@
                    + decimal(k as nat)).is_prefix_of(text))
        },
{
    if let Ok(plan) = planned_with(template, tied, ins, outs, arch) {
        let chunks = split(template, '$');
        let table = planned_table(template, ins, outs, arch);
        law_references_are_rewritten(template, plan.att_syntax, table, arch, i, idx);
        law_plan_operands_are_distinct(template, tied, ins, outs, arch);
        let k = choose|k: int|
            0 <= k < table.operands.len() && #[trigger] table.operands[k].at_orig_idx(idx as int)
                && (rewritten_chunk(chunks, i, plan.att_syntax, table, template, arch) matches Ok(
                text,
            ) && (reference_bracket(chunks[i], plan.att_syntax, table) + "{"@ + decimal(
                k as nat,
            )).is_prefix_of(text));
        assert(plan.operands[k].at_orig_idx(idx as int));
        assert forall|j: int|
            0 <= j < plan.operands.len() && (#[trigger] plan.operands[j]).at_orig_idx(
                idx as int,
            ) implies j == k by {
            if j != k {
                lemma_distinct_pair(plan.operands, j, k);
            }
        }
    }
}

} // verus!
