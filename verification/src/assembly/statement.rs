//! What an inline-assembly statement becomes: statements that prepare its
//! operands, the `asm!` itself, and statements that take its results.

use crate::assembly::constraints::{
    is_regname_or_int, names_register_or_index, reg_is_reserved, reserved_register, Arch,
    ArgDirSpec,
};
use crate::assembly::operands::{operand_views, BidirAsmOperand, CExprId, OperandView, TiedOperands};
use crate::errors::opt_text;
use crate::text::{
    chars_of, lemma_taken_next, push_text, same_text, string_of, strings, trim_to, trim_to_class,
    CharClass,
};
use vstd::prelude::*;

verus! {

/// An expression among the operands of an `asm!`.
#[derive(Clone, Copy, PartialEq, Eq, Structural, Debug)]
pub enum AsmExpr {
    /// The value of a C expression.
    Value(CExprId),
    /// `&raw mut` or `&raw const` of a C expression.
    AddressOf { mutable: bool, expression: CExprId },
    /// The local that the output with this index is written to.
    Inner(usize),
    /// `c2rust_asm_casts::AsmCast::cast_in` of the locals for an output and an
    /// input.
    CastIn { output: usize, input: usize },
}

/// A statement before an `asm!`.
#[derive(Clone, Copy, PartialEq, Eq, Structural, Debug)]
pub enum AsmStmt {
    /// The statements that converting a C expression yields.
    Setup(CExprId),
    /// `let c2rust_output = &raw mut place;` for the output with this index.
    LetOutput { output: usize, place: AsmExpr },
    /// `let mut c2rust_inner;` for the output with this index.
    LetInner { output: usize },
    /// `let c2rust_input = value;` for the input with this index.
    LetInput { input: usize, value: AsmExpr },
}

/// A statement behind an `asm!`:
/// `c2rust_asm_casts::AsmCast::cast_out(output, input, inner);`.
#[derive(Clone, Copy, PartialEq, Eq, Structural, Debug)]
pub struct CastOut {
    pub output: usize,
    pub input: usize,
}

/// Where an `asm!` operand is kept.
#[derive(Clone, Debug)]
pub enum OperandPlace {
    /// An explicit register, written as a string.
    Register(String),
    /// A register class.
    Class(String),
}

/// What [`OperandPlace`] says.
#[verifier::ext_equal]
pub enum PlaceView {
    Register(Seq<char>),
    Class(Seq<char>),
}

/// Where the output of an `asm!` operand goes.
#[derive(Clone, Copy, PartialEq, Eq, Structural, Debug)]
pub enum OutPlace {
    /// There is no output.
    Absent,
    /// The output is dropped: `_`.
    Discard,
    /// The output goes here.
    To(AsmExpr),
}

/// An operand of an `asm!`.
#[derive(Clone, Debug)]
pub struct AsmArg {
    pub name: Option<String>,
    pub dir_spec: ArgDirSpec,
    pub place: OperandPlace,
    pub in_expr: Option<AsmExpr>,
    pub out_expr: OutPlace,
}

/// What an [`AsmArg`] says.
#[verifier::ext_equal]
pub struct ArgView {
    pub name: Option<Seq<char>>,
    pub dir_spec: ArgDirSpec,
    pub place: PlaceView,
    pub in_expr: Option<AsmExpr>,
    pub out_expr: OutPlace,
}

impl View for OperandPlace {
    type V = PlaceView;

    open spec fn view(&self) -> PlaceView {
        match self {
            OperandPlace::Register(s) => PlaceView::Register(s@),
            OperandPlace::Class(s) => PlaceView::Class(s@),
        }
    }
}

impl View for AsmArg {
    type V = ArgView;

    open spec fn view(&self) -> ArgView {
        ArgView {
            name: opt_text(self.name),
            dir_spec: self.dir_spec,
            place: self.place@,
            in_expr: self.in_expr,
            out_expr: self.out_expr,
        }
    }
}

/// The views of a list of `asm!` operands.
pub open spec fn arg_views(args: Seq<AsmArg>) -> Seq<ArgView> {
    Seq::new(args.len(), |i: int| args[i]@)
}

/// An expression, or its address if the operand is memory only.
pub open spec fn by_address(mem_only: bool, mutable: bool, expression: CExprId) -> AsmExpr {
    if mem_only {
        AsmExpr::AddressOf { mutable, expression }
    } else {
        AsmExpr::Value(expression)
    }
}

/// A constraint as it is written in an `asm!`.
pub open spec fn operand_place(constraints: Seq<char>) -> PlaceView {
    if names_register_or_index(constraints) {
        PlaceView::Register(trim_to(constraints, CharClass::IsNot('"')))
    } else {
        PlaceView::Class(constraints)
    }
}

/// The statements for the output of an operand: the expression's own, and for
/// a tied output the locals for its address and for the value of the assembly.
pub open spec fn output_setup(op: OperandView, tied: Map<(usize, bool), usize>) -> Seq<AsmStmt> {
    match op.out_expr {
        None => Seq::empty(),
        Some((output, e)) => if tied.contains_key((output, true)) {
            seq![
                AsmStmt::Setup(e),
                AsmStmt::LetOutput { output, place: by_address(op.mem_only, true, e) },
                AsmStmt::LetInner { output },
            ]
        } else {
            seq![AsmStmt::Setup(e)]
        },
    }
}

/// The statements for the input of an operand: the expression's own, and for a
/// tied input the local for its value.
pub open spec fn input_setup(op: OperandView, tied: Map<(usize, bool), usize>) -> Seq<AsmStmt> {
    match op.in_expr {
        None => Seq::empty(),
        Some((input, e)) => if tied.contains_key((input, false)) {
            seq![
                AsmStmt::Setup(e),
                AsmStmt::LetInput { input, value: by_address(op.mem_only, false, e) },
            ]
        } else {
            seq![AsmStmt::Setup(e)]
        },
    }
}

/// The operand as it is written in an `asm!`.
pub open spec fn operand_arg(op: OperandView, tied: Map<(usize, bool), usize>) -> ArgView {
    ArgView {
        name: op.name,
        dir_spec: op.dir_spec,
        place: operand_place(op.constraints),
        in_expr: match op.in_expr {
            None => None,
            Some((input, e)) => Some(
                if tied.contains_key((input, false)) {
                    AsmExpr::CastIn { output: tied[(input, false)], input }
                } else {
                    by_address(op.mem_only, false, e)
                },
            ),
        },
        out_expr: match op.out_expr {
            Some((output, e)) => OutPlace::To(
                if tied.contains_key((output, true)) {
                    AsmExpr::Inner(output)
                } else {
                    by_address(op.mem_only, true, e)
                },
            ),
            None => if op.in_expr is Some && (op.dir_spec is InOut || op.dir_spec is InLateOut) {
                OutPlace::Discard
            } else {
                OutPlace::Absent
            },
        },
    }
}

/// The cast behind the `asm!` for an operand with a tied input.
pub open spec fn operand_casts(op: OperandView, tied: Map<(usize, bool), usize>) -> Seq<CastOut> {
    match op.in_expr {
        Some((input, _)) => if tied.contains_key((input, false)) {
            seq![CastOut { output: tied[(input, false)], input }]
        } else {
            Seq::empty()
        },
        None => Seq::empty(),
    }
}

/// The operand is passed by address, or the address of its output is taken.
pub open spec fn takes_address(op: OperandView, tied: Map<(usize, bool), usize>) -> bool {
    ||| op.mem_only && (op.out_expr is Some || op.in_expr is Some)
    ||| op.out_expr matches Some((output, _)) && tied.contains_key((output, true))
}

/// The statements and operands for a list of operands.
#[verifier::ext_equal]
pub struct LoweredView {
    pub setup: Seq<AsmStmt>,
    pub args: Seq<ArgView>,
    pub casts: Seq<CastOut>,
    pub uses_raw_ref: bool,
}

/// What a list of operands becomes, one after the other.
pub open spec fn lowered(ops: Seq<OperandView>, tied: Map<(usize, bool), usize>) -> LoweredView
    decreases ops.len(),
{
    if ops.len() == 0 {
        LoweredView {
            setup: Seq::empty(),
            args: Seq::empty(),
            casts: Seq::empty(),
            uses_raw_ref: false,
        }
    } else {
        let before = lowered(ops.drop_last(), tied);
        let op = ops.last();
        LoweredView {
            setup: before.setup + output_setup(op, tied) + input_setup(op, tied),
            args: before.args.push(operand_arg(op, tied)),
            casts: before.casts + operand_casts(op, tied),
            uses_raw_ref: before.uses_raw_ref || takes_address(op, tied),
        }
    }
}

/// The statements and operands for a list of operands.
#[derive(Debug)]
pub struct LoweredOperands {
    /// The statements before the `asm!`.
    pub setup: Vec<AsmStmt>,
    /// The operands of the `asm!`.
    pub args: Vec<AsmArg>,
    /// The statements behind the `asm!`.
    pub casts: Vec<CastOut>,
    /// Whether an address is taken.
    pub uses_raw_ref: bool,
}

impl View for LoweredOperands {
    type V = LoweredView;

    open spec fn view(&self) -> LoweredView {
        LoweredView {
            setup: self.setup@,
            args: arg_views(self.args@),
            casts: self.casts@,
            uses_raw_ref: self.uses_raw_ref,
        }
    }
}

fn address_or_value(mem_only: bool, mutable: bool, expression: CExprId) -> (res: AsmExpr)
    ensures
        res == by_address(mem_only, mutable, expression),
{
    if mem_only {
        AsmExpr::AddressOf { mutable, expression }
    } else {
        AsmExpr::Value(expression)
    }
}

fn place_of(constraints: &String) -> (res: OperandPlace)
    ensures
        res@ == operand_place(constraints@),
{
    if is_regname_or_int(constraints.as_str()) {
        let cs = chars_of(constraints.as_str());
        let trimmed = trim_to_class(cs.as_slice(), CharClass::IsNot('"'));
        OperandPlace::Register(string_of(trimmed.as_slice()))
    } else {
        OperandPlace::Class(constraints.clone())
    }
}

fn name_of(name: &Option<String>) -> (res: Option<String>)
    ensures
        opt_text(res) == opt_text(*name),
{
    match name {
        Some(text) => Some(text.clone()),
        None => None,
    }
}

/// Appends the statements for the output of an operand, and tells where the
/// output goes.
fn lower_output(op: &BidirAsmOperand, tied: &TiedOperands, setup: &mut Vec<AsmStmt>) -> (res:
    OutPlace)
    requires
        tied.wf(),
    ensures
        final(setup)@ == old(setup)@ + output_setup(op@, tied@),
        res == operand_arg(op@, tied@).out_expr,
{
    match op.out_expr {
        Some((output, e)) => {
            setup.push(AsmStmt::Setup(e));
            let place = address_or_value(op.mem_only, true, e);
            if tied.get((output, true)).is_some() {
                setup.push(AsmStmt::LetOutput { output, place });
                setup.push(AsmStmt::LetInner { output });
                OutPlace::To(AsmExpr::Inner(output))
            } else {
                OutPlace::To(place)
            }
        },
        None => {
            if op.in_expr.is_some() && (op.dir_spec == ArgDirSpec::InOut || op.dir_spec
                == ArgDirSpec::InLateOut) {
                OutPlace::Discard
            } else {
                OutPlace::Absent
            }
        },
    }
}

/// Appends the statements and the cast for the input of an operand, and tells
/// what the input is.
fn lower_input(
    op: &BidirAsmOperand,
    tied: &TiedOperands,
    setup: &mut Vec<AsmStmt>,
    casts: &mut Vec<CastOut>,
) -> (res: Option<AsmExpr>)
    requires
        tied.wf(),
    ensures
        final(setup)@ == old(setup)@ + input_setup(op@, tied@),
        final(casts)@ == old(casts)@ + operand_casts(op@, tied@),
        res == operand_arg(op@, tied@).in_expr,
{
    match op.in_expr {
        Some((input, e)) => {
            setup.push(AsmStmt::Setup(e));
            let value = address_or_value(op.mem_only, false, e);
            match tied.get((input, false)) {
                Some(output) => {
                    setup.push(AsmStmt::LetInput { input, value });
                    casts.push(CastOut { output, input });
                    Some(AsmExpr::CastIn { output, input })
                },
                None => Some(value),
            }
        },
        None => None,
    }
}

fn operand_takes_address(op: &BidirAsmOperand, tied: &TiedOperands) -> (res: bool)
    requires
        tied.wf(),
    ensures
        res == takes_address(op@, tied@),
{
    if op.mem_only && (op.out_expr.is_some() || op.in_expr.is_some()) {
        return true;
    }
    match op.out_expr {
        Some((output, _)) => tied.get((output, true)).is_some(),
        None => false,
    }
}

/// The statements that go with the operands of an `asm!`, and the operands as
/// they are written there.
///
/// Where an input is tied to an output, clang's behaviour is replicated: the
/// assembly uses the larger type internally, the smaller value gets extended
/// to the larger one before the call, and truncated back after.
pub fn lower_operands(ops: &Vec<BidirAsmOperand>, tied: &TiedOperands) -> (res: LoweredOperands)
    requires
        tied.wf(),
    ensures
        res@ == lowered(operand_views(ops@), tied@),
{
    let ghost views = operand_views(ops@);
    let mut setup: Vec<AsmStmt> = Vec::new();
    let mut args: Vec<AsmArg> = Vec::new();
    let mut casts: Vec<CastOut> = Vec::new();
    let mut uses_raw_ref: bool = false;
    assert(arg_views(args@) == Seq::<ArgView>::empty());
    let mut k: usize = 0;
    while k < ops.len()
        invariant
            k <= ops@.len(),
            args@.len() == k,
            tied.wf(),
            views == operand_views(ops@),
            setup@ == lowered(views.take(k as int), tied@).setup,
            arg_views(args@) == lowered(views.take(k as int), tied@).args,
            casts@ == lowered(views.take(k as int), tied@).casts,
            uses_raw_ref == lowered(views.take(k as int), tied@).uses_raw_ref,
        decreases ops@.len() - k,
    {
        assert(views.take(k + 1).drop_last() == views.take(k as int));
        assert(views.take(k + 1).last() == ops@[k as int]@);
        let op = &ops[k];
        let out_expr = lower_output(op, tied, &mut setup);
        let in_expr = lower_input(op, tied, &mut setup, &mut casts);
        if operand_takes_address(op, tied) {
            uses_raw_ref = true;
        }
        let ghost before = args@;
        let arg = AsmArg {
            name: name_of(&op.name),
            dir_spec: op.dir_spec,
            place: place_of(&op.constraints),
            in_expr,
            out_expr,
        };
        assert(arg@ == operand_arg(op@, tied@));
        args.push(arg);
        assert(arg_views(args@) == arg_views(before).push(arg@));
        k += 1;
    }
    assert(views.take(views.len() as int) == views);
    LoweredOperands { setup, args, casts, uses_raw_ref }
}

/// The clobber leads to an operand: it is neither of the two that speak of
/// flags and memory, and the register is not reserved.
pub open spec fn is_register_clobber(clobber: Seq<char>, arch: Arch) -> bool {
    clobber != "cc"@ && clobber != "memory"@ && !is_reserved_clobber(clobber, arch)
}

/// The clobber is of a reserved register.
pub open spec fn is_reserved_clobber(clobber: Seq<char>, arch: Arch) -> bool {
    clobber != "cc"@ && clobber != "memory"@ && reserved_register(
        "\""@ + clobber + "\""@,
        arch,
    ) is Some
}

/// The clobbers that lead to operands, in order.
pub open spec fn register_clobbers(clobbers: Seq<Seq<char>>, arch: Arch) -> Seq<Seq<char>> {
    clobbers.filter(|c: Seq<char>| is_register_clobber(c, arch))
}

/// The clobbers of reserved registers, in order.
pub open spec fn reserved_clobbers(clobbers: Seq<Seq<char>>, arch: Arch) -> Seq<Seq<char>> {
    clobbers.filter(|c: Seq<char>| is_reserved_clobber(c, arch))
}

/// The clobbers of a statement, by what they lead to.
#[derive(Debug)]
pub struct SortedClobbers {
    /// Those that lead to operands.
    pub registers: Vec<String>,
    /// Those of reserved registers, which must be dropped.
    pub reserved: Vec<String>,
    /// Whether the flags keep their values.
    pub preserves_flags: bool,
    /// Whether memory keeps its contents.
    pub read_only: bool,
}

fn clobbers_reserved(clobber: &String, arch: Arch) -> (res: bool)
    ensures
        res == (reserved_register("\""@ + clobber@ + "\""@, arch) is Some),
{
    let mut quoted = chars_of("\"");
    push_text(&mut quoted, clobber.as_str());
    push_text(&mut quoted, "\"");
    let text = string_of(quoted.as_slice());
    reg_is_reserved(text.as_str(), arch).is_some()
}

/// Sorts the clobbers of a statement.
pub fn sort_clobbers(clobbers: &[String], arch: Arch) -> (res: SortedClobbers)
    ensures
        strings(res.registers@) == register_clobbers(strings(clobbers@), arch),
        strings(res.reserved@) == reserved_clobbers(strings(clobbers@), arch),
        res.preserves_flags == !strings(clobbers@).contains("cc"@),
        res.read_only == !strings(clobbers@).contains("memory"@),
{
    let ghost all = strings(clobbers@);
    let ghost is_register = |c: Seq<char>| is_register_clobber(c, arch);
    let ghost is_reserved = |c: Seq<char>| is_reserved_clobber(c, arch);
    let mut registers: Vec<String> = Vec::new();
    let mut reserved: Vec<String> = Vec::new();
    let mut preserves_flags: bool = true;
    let mut read_only: bool = true;
    proof {
        assert("cc"@ != "memory"@) by {
            reveal_strlit("cc");
            reveal_strlit("memory");
            assert("cc"@[0] == 'c');
            assert("memory"@[0] == 'm');
        }
        reveal(Seq::filter);
        assert(strings(registers@) =~= all.take(0).filter(is_register));
        assert(strings(reserved@) =~= all.take(0).filter(is_reserved));
    }
    let mut i: usize = 0;
    while i < clobbers.len()
        invariant
            i <= clobbers@.len(),
            "cc"@ != "memory"@,
            all == strings(clobbers@),
            is_register == (|c: Seq<char>| is_register_clobber(c, arch)),
            is_reserved == (|c: Seq<char>| is_reserved_clobber(c, arch)),
            strings(registers@) == all.take(i as int).filter(is_register),
            strings(reserved@) == all.take(i as int).filter(is_reserved),
            preserves_flags == !all.take(i as int).contains("cc"@),
            read_only == !all.take(i as int).contains("memory"@),
        decreases clobbers@.len() - i,
    {
        let clobber = &clobbers[i];
        let ghost registers_before = registers@;
        let ghost reserved_before = reserved@;
        proof {
            reveal(Seq::filter);
            assert(all.take(i + 1).drop_last() == all.take(i as int));
            assert(all.take(i + 1).last() == clobber@);
            lemma_taken_next(all, i as int, "cc"@);
            lemma_taken_next(all, i as int, "memory"@);
        }
        if same_text(clobber.as_str(), "cc") {
            preserves_flags = false;
        } else if same_text(clobber.as_str(), "memory") {
            read_only = false;
        } else if clobbers_reserved(clobber, arch) {
            reserved.push(clobber.clone());
            assert(strings(reserved@) == strings(reserved_before).push(clobber@));
        } else {
            registers.push(clobber.clone());
            assert(strings(registers@) == strings(registers_before).push(clobber@));
        }
        i += 1;
    }
    assert(all.take(all.len() as int) == all);
    SortedClobbers { registers, reserved, preserves_flags, read_only }
}

/// An option of an `asm!`.
#[derive(Clone, Copy, PartialEq, Eq, Structural, Debug)]
pub enum AsmOption {
    PreservesFlags,
    Pure,
    Readonly,
    AttSyntax,
}

/// The keyword for an option.
pub open spec fn option_keyword(option: AsmOption) -> Seq<char> {
    match option {
        AsmOption::PreservesFlags => "preserves_flags"@,
        AsmOption::Pure => "pure"@,
        AsmOption::Readonly => "readonly"@,
        AsmOption::AttSyntax => "att_syntax"@,
    }
}

impl AsmOption {
    /// The keyword for the option.
    pub fn keyword(&self) -> (res: &'static str)
        ensures
            res@ == option_keyword(*self),
    {
        match self {
            AsmOption::PreservesFlags => "preserves_flags",
            AsmOption::Pure => "pure",
            AsmOption::Readonly => "readonly",
            AsmOption::AttSyntax => "att_syntax",
        }
    }
}

/// What the options of an `asm!` depend on.
#[derive(Clone, Copy, Debug)]
pub struct AsmTraits {
    /// The statement is volatile.
    pub is_volatile: bool,
    /// No clobber speaks of the flags.
    pub preserves_flags: bool,
    /// No clobber speaks of memory.
    pub read_only: bool,
    /// An operand occurs in a comment of the template only.
    pub comment_only_operand: bool,
    /// An operand or a clobbered register is written to.
    pub has_output: bool,
    /// The template is in AT&T syntax.
    pub att_syntax: bool,
}

/// The assembly may be treated as a function of its inputs.
pub open spec fn is_pure(t: AsmTraits) -> bool {
    !t.is_volatile && t.read_only && !t.comment_only_operand && t.has_output
}

/// The options of an `asm!`.
pub open spec fn asm_options(t: AsmTraits) -> Seq<AsmOption> {
    let flags = if t.preserves_flags {
        seq![AsmOption::PreservesFlags]
    } else {
        Seq::empty()
    };
    let pure = if is_pure(t) {
        seq![AsmOption::Pure, AsmOption::Readonly]
    } else {
        Seq::empty()
    };
    let syntax = if t.att_syntax {
        seq![AsmOption::AttSyntax]
    } else {
        Seq::empty()
    };
    flags + pure + syntax
}

/// Picks the options of an `asm!`.
///
/// `pure` needs an output. It licenses the compiler to reorder, merge and drop
/// the assembly, so it is not for a statement with an operand that occurs in a
/// comment only: such a statement is a barrier that stops the compiler from
/// reasoning about the operand.
pub fn pick_options(t: AsmTraits) -> (res: Vec<AsmOption>)
    ensures
        res@ == asm_options(t),
{
    let mut options: Vec<AsmOption> = Vec::new();
    if t.preserves_flags {
        options.push(AsmOption::PreservesFlags);
    }
    if !t.is_volatile && t.read_only && !t.comment_only_operand && t.has_output {
        options.push(AsmOption::Pure);
        options.push(AsmOption::Readonly);
    }
    if t.att_syntax {
        options.push(AsmOption::AttSyntax);
    }
    options
}

} // verus!
