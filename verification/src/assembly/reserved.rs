//! Operands in registers that the compiler keeps for itself: they move to any
//! register, and instructions around the template copy in and out.

use crate::assembly::constraints::{reg_is_reserved, reserved_register, Arch};
use crate::assembly::operands::{
    lemma_only_counts, only, operand_views, BidirAsmOperand, OperandView,
};
use crate::text::{decimal, decimal_text, push_all, push_text, string_of};
use vstd::prelude::*;

verus! {

/// An operand to move out of a reserved register.
#[verifier::ext_equal]
pub struct Rewrite {
    /// Its position among the operands.
    pub idx: int,
    /// The reserved register.
    pub reg: Seq<char>,
    /// The template modifier for the width of the register.
    pub mods: Seq<char>,
}

/// The operand is in a reserved register.
pub open spec fn in_reserved_register(op: OperandView, arch: Arch) -> bool {
    !op.positional() && reserved_register(op.constraints, arch) is Some
}

/// The operands in reserved registers, in order.
pub open spec fn rewrites(ops: Seq<OperandView>, arch: Arch) -> Seq<Rewrite>
    decreases ops.len(),
{
    if ops.len() == 0 {
        Seq::empty()
    } else {
        let before = rewrites(ops.drop_last(), arch);
        if in_reserved_register(ops.last(), arch) {
            let (reg, mods) = reserved_register(ops.last().constraints, arch).unwrap();
            before.push(Rewrite { idx: ops.len() - 1, reg, mods })
        } else {
            before
        }
    }
}

/// The name of the operand that is moved as number `n`.
pub open spec fn moved_name(n: nat) -> Seq<char> {
    "restmp"@ + decimal(n)
}

/// A reference to the operand in the width of the register.
pub open spec fn moved_ref(name: Seq<char>, mods: Seq<char>) -> Seq<char> {
    "{"@ + name + ":"@ + mods + "}"@
}

/// The instruction before the template, which copies the operand into the
/// register: Intel syntax has the destination first, AT&T syntax last.
pub open spec fn move_input(att: bool, name: Seq<char>, reg: Seq<char>, mods: Seq<char>) -> Seq<
    char,
> {
    if att {
        "mov "@ + moved_ref(name, mods) + ", %"@ + reg + "\n"@
    } else {
        "mov "@ + reg + ", "@ + moved_ref(name, mods) + "\n"@
    }
}

/// The instruction behind the template, which copies the register out into the
/// operand.
pub open spec fn move_output(att: bool, name: Seq<char>, reg: Seq<char>, mods: Seq<char>) -> Seq<
    char,
> {
    if att {
        "\nmov %"@ + reg + ", "@ + moved_ref(name, mods)
    } else {
        "\nmov "@ + moved_ref(name, mods) + ", "@ + reg
    }
}

/// The sequence with two of its items exchanged.
pub open spec fn swapped<A>(s: Seq<A>, i: int, j: int) -> Seq<A> {
    s.update(i, s[j]).update(j, s[i])
}

/// The operands and the instructions around the template.
#[verifier::ext_equal]
pub struct ReservedView {
    pub ops: Seq<OperandView>,
    pub prolog: Seq<char>,
    pub epilog: Seq<char>,
}

/// The outcome after the first `n` operands in reserved registers are moved:
/// each gets a name and any register, an instruction for its input and one for
/// its output, and changes places with the operand behind all positional and
/// already moved ones.
pub open spec fn after_moves(ops: Seq<OperandView>, att: bool, arch: Arch, n: nat) -> ReservedView
    decreases n,
{
    if n == 0 {
        ReservedView { ops, prolog: Seq::empty(), epilog: Seq::empty() }
    } else {
        let prev = after_moves(ops, att, arch, (n - 1) as nat);
        let rw = rewrites(ops, arch)[n - 1];
        let name = moved_name((n - 1) as nat);
        let op = prev.ops[rw.idx];
        let moved = OperandView { constraints: "reg"@, name: Some(name), ..op };
        ReservedView {
            ops: swapped(
                prev.ops.update(rw.idx, moved),
                rw.idx,
                only(ops, true).len() + n - 1,
            ),
            prolog: if op.in_expr is Some {
                prev.prolog + move_input(att, name, rw.reg, rw.mods)
            } else {
                prev.prolog
            },
            epilog: if op.out_expr is Some {
                prev.epilog + move_output(att, name, rw.reg, rw.mods)
            } else {
                prev.epilog
            },
        }
    }
}

/// The outcome after all operands in reserved registers are moved.
pub open spec fn reserved_moved(ops: Seq<OperandView>, att: bool, arch: Arch) -> ReservedView {
    after_moves(ops, att, arch, rewrites(ops, arch).len())
}

/// The positions of the operands to move are in range and ascend; there are no
/// more of them than operands that are not positional; and every operand in a
/// reserved register is among them.
pub proof fn lemma_rewrites(ops: Seq<OperandView>, arch: Arch)
    ensures
        rewrites(ops, arch).len() <= only(ops, false).len(),
        forall|m: int|
            0 <= m < rewrites(ops, arch).len() ==> 0 <= (#[trigger] rewrites(ops, arch)[m]).idx
                < ops.len() && in_reserved_register(ops[rewrites(ops, arch)[m].idx], arch),
        forall|m: int, k: int|
            0 <= m < k < rewrites(ops, arch).len() ==> (#[trigger] rewrites(ops, arch)[m]).idx < (
            #[trigger] rewrites(ops, arch)[k]).idx,
        forall|i: int|
            0 <= i < ops.len() && in_reserved_register(#[trigger] ops[i], arch) ==> exists|m: int|
                0 <= m < rewrites(ops, arch).len() && (#[trigger] rewrites(ops, arch)[m]).idx == i,
    decreases ops.len(),
{
    if ops.len() > 0 {
        let front = ops.drop_last();
        lemma_rewrites(front, arch);
        let before = rewrites(front, arch);
        let all = rewrites(ops, arch);
        assert forall|m: int| 0 <= m < all.len() implies 0 <= (#[trigger] all[m]).idx < ops.len()
            && in_reserved_register(ops[all[m].idx], arch) by {
            if m < before.len() {
                assert(all[m] == before[m]);
                assert(ops[all[m].idx] == front[before[m].idx]);
            }
        }
        assert forall|m: int, k: int| 0 <= m < k < all.len() implies (#[trigger] all[m]).idx < (
        #[trigger] all[k]).idx by {
            assert(all[m] == before[m]);
            if k < before.len() {
                assert(all[k] == before[k]);
            }
        }
        assert forall|i: int|
            0 <= i < ops.len() && in_reserved_register(#[trigger] ops[i], arch) implies exists|
            m: int,
        |
            0 <= m < all.len() && (#[trigger] all[m]).idx == i by {
            if i < front.len() {
                assert(front[i] == ops[i]);
                let m = choose|m: int| 0 <= m < before.len() && (#[trigger] before[m]).idx == i;
                assert(all[m] == before[m]);
            } else {
                assert(all[before.len() as int].idx == i);
            }
        }
    }
}

struct MovePlan {
    idx: usize,
    reg: &'static str,
    mods: &'static str,
}

spec fn plan_views(plan: Seq<MovePlan>) -> Seq<Rewrite> {
    Seq::new(
        plan.len(),
        |i: int| Rewrite { idx: plan[i].idx as int, reg: plan[i].reg@, mods: plan[i].mods@ },
    )
}

fn push_moved_ref(out: &mut Vec<char>, name: &[char], mods: &str)
    ensures
        final(out)@ == old(out)@ + moved_ref(name@, mods@),
{
    push_text(out, "{");
    push_all(out, name);
    push_text(out, ":");
    push_text(out, mods);
    push_text(out, "}");
    assert(out@ == old(out)@ + moved_ref(name@, mods@));
}

fn push_move_input(out: &mut Vec<char>, att: bool, name: &[char], reg: &str, mods: &str)
    ensures
        final(out)@ == old(out)@ + move_input(att, name@, reg@, mods@),
{
    push_text(out, "mov ");
    if att {
        push_moved_ref(out, name, mods);
        push_text(out, ", %");
        push_text(out, reg);
    } else {
        push_text(out, reg);
        push_text(out, ", ");
        push_moved_ref(out, name, mods);
    }
    push_text(out, "\n");
    assert(out@ == old(out)@ + move_input(att, name@, reg@, mods@));
}

fn push_move_output(out: &mut Vec<char>, att: bool, name: &[char], reg: &str, mods: &str)
    ensures
        final(out)@ == old(out)@ + move_output(att, name@, reg@, mods@),
{
    if att {
        push_text(out, "\nmov %");
        push_text(out, reg);
        push_text(out, ", ");
        push_moved_ref(out, name, mods);
    } else {
        push_text(out, "\nmov ");
        push_moved_ref(out, name, mods);
        push_text(out, ", ");
        push_text(out, reg);
    }
    assert(out@ == old(out)@ + move_output(att, name@, reg@, mods@));
}

/// Determines which operands must be rewritten and how many positional
/// operands there are.
fn plan_moves(operands: &Vec<BidirAsmOperand>, arch: Arch) -> (res: (Vec<MovePlan>, usize))
    ensures
        plan_views(res.0@) == rewrites(operand_views(operands@), arch),
        res.1 == only(operand_views(operands@), true).len(),
{
    let ghost ops = operand_views(operands@);
    let mut plan: Vec<MovePlan> = Vec::new();
    let mut total_positional: usize = 0;
    let mut i: usize = 0;
    assert(plan_views(plan@) == rewrites(ops.take(0), arch));
    while i < operands.len()
        invariant
            i <= operands@.len(),
            ops == operand_views(operands@),
            total_positional <= i,
            plan_views(plan@) == rewrites(ops.take(i as int), arch),
            total_positional == only(ops.take(i as int), true).len(),
        decreases operands@.len() - i,
    {
        assert(ops.take(i + 1).drop_last() == ops.take(i as int));
        assert(ops.take(i + 1).last() == operands@[i as int]@);
        let ghost before = plan@;
        if operands[i].is_positional() {
            total_positional += 1;
        } else if let Some((reg, mods)) = reg_is_reserved(operands[i].constraints.as_str(), arch) {
            plan.push(MovePlan { idx: i, reg, mods });
            assert(plan_views(plan@) == plan_views(before).push(
                Rewrite { idx: i as int, reg: reg@, mods: mods@ },
            ));
        }
        i += 1;
    }
    assert(ops.take(ops.len() as int) == ops);
    (plan, total_positional)
}

/// Emit mov instructions and modify inline assembly operands to copy in and/or
/// out when an operand uses a reserved register. Instead of constraining the
/// operand to the reserved register, constrain it to any register and then copy
/// between the reserved register and the (suitably modified, e.g. `{0:x}`)
/// operand.
/// This also requires reordering the operands because we convert them to
/// named operands, which must precede explicit register operands.
///
/// Modifies `operands` and returns a pair of prefix and suffix strings that
/// should be appended to the assembly template.
pub fn rewrite_reserved_reg_operands(
    att_syntax: bool,
    arch: Arch,
    operands: &mut Vec<BidirAsmOperand>,
) -> (res: (String, String))
    ensures
        operand_views(final(operands)@) == reserved_moved(
            operand_views(old(operands)@),
            att_syntax,
            arch,
        ).ops,
        res.0@ == reserved_moved(operand_views(old(operands)@), att_syntax, arch).prolog,
        res.1@ == reserved_moved(operand_views(old(operands)@), att_syntax, arch).epilog,
{
    let ghost ops = operand_views(operands@);
    let (plan, total_positional) = plan_moves(operands, arch);
    proof {
        lemma_rewrites(ops, arch);
        lemma_only_counts(ops);
    }
    let ghost moves = rewrites(ops, arch);
    let mut prolog: Vec<char> = Vec::new();
    let mut epilog: Vec<char> = Vec::new();
    let mut n_moved: usize = 0;
    let len = operands.len();
    while n_moved < plan.len()
        invariant
            n_moved <= plan@.len(),
            plan_views(plan@) == moves,
            moves == rewrites(ops, arch),
            len == ops.len(),
            operands@.len() == len,
            total_positional == only(ops, true).len(),
            total_positional + moves.len() <= len,
            forall|m: int| 0 <= m < moves.len() ==> 0 <= (#[trigger] moves[m]).idx < len,
            operand_views(operands@) == after_moves(ops, att_syntax, arch, n_moved as nat).ops,
            prolog@ == after_moves(ops, att_syntax, arch, n_moved as nat).prolog,
            epilog@ == after_moves(ops, att_syntax, arch, n_moved as nat).epilog,
        decreases plan@.len() - n_moved,
    {
        let ghost prev = after_moves(ops, att_syntax, arch, n_moved as nat);
        let idx = plan[n_moved].idx;
        let reg = plan[n_moved].reg;
        let mods = plan[n_moved].mods;
        assert(moves[n_moved as int] == plan_views(plan@)[n_moved as int]);
        assert(moves[n_moved as int].idx == idx);
        assert(prev.ops[idx as int] == operands@[idx as int]@);
        let mut name = crate::text::chars_of("restmp");
        let number = decimal_text(n_moved);
        push_all(&mut name, number.as_slice());
        assert(name@ == moved_name(n_moved as nat));
        let in_expr = operands[idx].in_expr;
        let out_expr = operands[idx].out_expr;
        if in_expr.is_some() {
            push_move_input(&mut prolog, att_syntax, name.as_slice(), reg, mods);
        }
        if out_expr.is_some() {
            push_move_output(&mut epilog, att_syntax, name.as_slice(), reg, mods);
        }
        let moved = BidirAsmOperand {
            dir_spec: operands[idx].dir_spec,
            mem_only: operands[idx].mem_only,
            constraints: "reg".to_owned(),
            name: Some(string_of(name.as_slice())),
            in_expr,
            out_expr,
        };
        let ghost moved_view = moved@;
        assert(moved_view == OperandView {
            constraints: "reg"@,
            name: Some(name@),
            ..prev.ops[idx as int]
        });
        let ghost before = operands@;
        // Move the operand to after all positional and named operands. This
        // does not interfere with moving subsequent operands that use reserved
        // registers because explicit register operands must all come after
        // those.
        let nth_non_positional: usize = total_positional + n_moved;
        operands.push(moved);
        let displaced = operands.swap_remove(nth_non_positional);
        if idx != nth_non_positional {
            operands.set(idx, displaced);
        }
        proof {
            let target = swapped(
                prev.ops.update(idx as int, moved_view),
                idx as int,
                nth_non_positional as int,
            );
            assert(operand_views(operands@) == target) by {
                assert(operands@.len() == target.len());
                assert forall|i: int| 0 <= i < len implies #[trigger] operand_views(operands@)[i]
                    == target[i] by {
                    assert(prev.ops[i] == before[i]@);
                }
            }
        }
        n_moved += 1;
    }
    (string_of(prolog.as_slice()), string_of(epilog.as_slice()))
}

/// Positional operands come before all others, and none has a name yet.
pub open spec fn unnamed_positional_first(ops: Seq<OperandView>) -> bool {
    &&& forall|i: int, j: int|
        0 <= i < j < ops.len() && (#[trigger] ops[j]).positional() ==> (
        #[trigger] ops[i]).positional()
    &&& forall|i: int| 0 <= i < ops.len() ==> (#[trigger] ops[i]).name is None
}

/// Of operands with the positional ones first, as many are in front.
pub proof fn lemma_positional_count(ops: Seq<OperandView>)
    requires
        unnamed_positional_first(ops),
    ensures
        forall|i: int|
            0 <= i < ops.len() ==> ((#[trigger] ops[i]).positional() <==> i < only(ops, true).len()),
    decreases ops.len(),
{
    if ops.len() > 0 {
        let front = ops.drop_last();
        assert forall|i: int, j: int|
            0 <= i < j < front.len() && (#[trigger] front[j]).positional() implies (
        #[trigger] front[i]).positional() by {
            assert(ops[j] == front[j] && ops[i] == front[i]);
        }
        assert forall|i: int| 0 <= i < front.len() implies (#[trigger] front[i]).name is None by {
            assert(ops[i] == front[i]);
        }
        lemma_positional_count(front);
        lemma_only_counts(front);
        assert forall|i: int| 0 <= i < ops.len() implies ((#[trigger] ops[i]).positional() <==> i
            < only(ops, true).len()) by {
            if i < front.len() {
                assert(ops[i] == front[i]);
            }
            if ops.last().positional() && front.len() > 0 {
                assert(ops[ops.len() - 1].positional());
                assert(ops[front.len() - 1].positional());
                assert(front[front.len() - 1].positional());
            }
        }
    }
}

/// An explicit register that is not reserved.
pub open spec fn plain_register(op: OperandView, arch: Arch) -> bool {
    op.name is None && op.constraints.contains('"') && reserved_register(op.constraints, arch)
        is None
}

/// What holds when `n` operands are moved: the positional ones are where they
/// were, the moved ones follow, and of the rest those still to move are where
/// they were and the others are in registers that are not reserved.
spec fn moved_so_far(ops: Seq<OperandView>, att: bool, arch: Arch, n: nat) -> bool {
    let out = after_moves(ops, att, arch, n).ops;
    let p = only(ops, true).len();
    let moves = rewrites(ops, arch);
    &&& out.len() == ops.len()
    &&& forall|i: int| 0 <= i < p ==> #[trigger] out[i] == ops[i]
    &&& forall|i: int|
        p <= i < p + n ==> (#[trigger] out[i]).name == Some(moved_name((i - p) as nat))
            && out[i].constraints == "reg"@
    &&& forall|m: int| n <= m < moves.len() ==> out[(#[trigger] moves[m]).idx] == ops[moves[m].idx]
    &&& forall|i: int|
        p + n <= i < out.len() && (forall|m: int|
            n <= m < moves.len() ==> (#[trigger] moves[m]).idx != i) ==> plain_register(
            #[trigger] out[i],
            arch,
        )
}

proof fn lemma_moved_so_far(ops: Seq<OperandView>, att: bool, arch: Arch, n: nat)
    requires
        unnamed_positional_first(ops),
        n <= rewrites(ops, arch).len(),
    ensures
        moved_so_far(ops, att, arch, n),
    decreases n,
{
    let p = only(ops, true).len();
    let moves = rewrites(ops, arch);
    lemma_rewrites(ops, arch);
    lemma_only_counts(ops);
    lemma_positional_count(ops);
    if n == 0 {
        assert forall|i: int|
            p <= i < ops.len() && (forall|m: int|
                0 <= m < moves.len() ==> (#[trigger] moves[m]).idx != i) implies plain_register(
            #[trigger] ops[i],
            arch,
        ) by {
            assert(!ops[i].positional());
            if in_reserved_register(ops[i], arch) {
                let m = choose|m: int| 0 <= m < moves.len() && (#[trigger] moves[m]).idx == i;
            }
        }
    } else {
        let k = (n - 1) as nat;
        lemma_moved_so_far(ops, att, arch, k);
        lemma_move_room(ops, arch, k as int);
        let prev = after_moves(ops, att, arch, k).ops;
        let out = after_moves(ops, att, arch, n).ops;
        let idx = moves[k as int].idx;
        let j: int = p + k as int;
        assert(p + k <= idx);
        assert(out[j].name == Some(moved_name(k)));
        assert(idx != j ==> out[idx] == prev[j]);
        assert forall|i: int| 0 <= i < out.len() && i != idx && i != j implies #[trigger] out[i]
            == prev[i] by {}
        assert forall|m: int| n <= m < moves.len() implies out[(#[trigger] moves[m]).idx]
            == ops[moves[m].idx] by {
            assert(moves[k as int].idx < moves[m].idx);
        }
        assert forall|i: int|
            p + n <= i < out.len() && (forall|m: int|
                n <= m < moves.len() ==> (#[trigger] moves[m]).idx != i) implies plain_register(
            #[trigger] out[i],
            arch,
        ) by {
            if i == idx {
                assert(idx != j);
                assert forall|m: int| k <= m < moves.len() implies (#[trigger] moves[m]).idx
                    != j by {
                    if m > k {
                        assert(moves[k as int].idx < moves[m].idx);
                    }
                }
                assert(plain_register(prev[j], arch));
            } else {
                assert forall|m: int| k <= m < moves.len() implies (#[trigger] moves[m]).idx
                    != i by {}
                assert(plain_register(prev[i], arch));
            }
        }
    }
}

proof fn lemma_move_room(ops: Seq<OperandView>, arch: Arch, m: int)
    requires
        unnamed_positional_first(ops),
        0 <= m < rewrites(ops, arch).len(),
    ensures
        only(ops, true).len() + m <= rewrites(ops, arch)[m].idx,
    decreases m,
{
    lemma_rewrites(ops, arch);
    lemma_positional_count(ops);
    if m > 0 {
        lemma_move_room(ops, arch, m - 1);
        assert(rewrites(ops, arch)[m - 1].idx < rewrites(ops, arch)[m].idx);
    } else {
        assert(!ops[rewrites(ops, arch)[0].idx].positional());
    }
}

/// Where positional operands come first and none has a name, moving operands
/// out of reserved registers leaves an order that `asm!` accepts: the same
/// positional operands, then the moved ones under their names, then explicit
/// registers. No operand is left in a reserved register.
pub proof fn law_moved_operands_are_ordered(ops: Seq<OperandView>, att: bool, arch: Arch)
    requires
        unnamed_positional_first(ops),
    ensures
        ({
            let out = reserved_moved(ops, att, arch).ops;
            let positional = only(ops, true).len();
            let moved = rewrites(ops, arch).len();
            &&& out.len() == ops.len()
            &&& forall|i: int| 0 <= i < positional ==> #[trigger] out[i] == ops[i]
            &&& forall|i: int|
                positional <= i < positional + moved ==> (#[trigger] out[i]).name == Some(
                    moved_name((i - positional) as nat),
                )
            &&& forall|i: int|
                positional + moved <= i < out.len() ==> (#[trigger] out[i]).name is None
                    && out[i].constraints.contains('"')
            &&& forall|i: int|
                0 <= i < out.len() ==> !in_reserved_register(#[trigger] out[i], arch)
        }),
{
    let out = reserved_moved(ops, att, arch).ops;
    let p = only(ops, true).len();
    let k = rewrites(ops, arch).len();
    lemma_moved_so_far(ops, att, arch, k);
    lemma_positional_count(ops);
    lemma_rewrites(ops, arch);
    lemma_only_counts(ops);
    assert forall|i: int| p + k <= i < out.len() implies plain_register(#[trigger] out[i], arch) by {}
    assert(reserved_register("reg"@, arch) is None) by {
        reveal_strlit("reg");
        reveal_strlit("\"esi\"");
        reveal_strlit("\"si\"");
        reveal_strlit("\"bl\"");
        reveal_strlit("\"bh\"");
        reveal_strlit("\"bx\"");
        reveal_strlit("\"ebx\"");
        reveal_strlit("\"rbx\"");
        assert("reg"@[0] == 'r');
        assert("\"esi\""@[0] == '"');
        assert("\"si\""@[0] == '"');
        assert("\"bl\""@[0] == '"');
        assert("\"bh\""@[0] == '"');
        assert("\"bx\""@[0] == '"');
        assert("\"ebx\""@[0] == '"');
        assert("\"rbx\""@[0] == '"');
    }
    assert forall|i: int| 0 <= i < out.len() implies !in_reserved_register(
        #[trigger] out[i],
        arch,
    ) by {
        if i < p {
            assert(out[i] == ops[i]);
        } else if i < p + k {
            assert(out[i].constraints == "reg"@);
        }
    }
}

/// The operands to move are those in an explicit register that is reserved, and
/// one more operand adds itself or nothing.
pub proof fn law_one_more_operand_to_move(ops: Seq<OperandView>, op: OperandView, arch: Arch)
    ensures
        rewrites(ops.push(op), arch) == match reserved_register(op.constraints, arch) {
            Some((reg, mods)) => if op.constraints.contains('"') || op.name is Some {
                rewrites(ops, arch).push(Rewrite { idx: ops.len() as int, reg, mods })
            } else {
                rewrites(ops, arch)
            },
            None => rewrites(ops, arch),
        },
        rewrites(Seq::empty(), arch).len() == 0,
{
    assert(ops.push(op).drop_last() =~= ops);
}

/// Each operand that moves is copied in by an instruction before the template if
/// it has an input, and out by one behind it if it has an output. The copy names
/// the register and the operand in the register's width, destination first in
/// Intel syntax and last in AT&T syntax. The operand goes behind the positional
/// and the already moved ones, under a name of its own and in any register; the
/// one that stood there takes its place, and all others stay.
pub proof fn law_one_more_move(ops: Seq<OperandView>, att: bool, arch: Arch, n: nat)
    requires
        n < rewrites(ops, arch).len(),
    ensures
        ({
            let before = after_moves(ops, att, arch, n);
            let after = after_moves(ops, att, arch, n + 1);
            let rw = rewrites(ops, arch)[n as int];
            let op = before.ops[rw.idx];
            let to = only(ops, true).len() + n as int;
            let name = "restmp"@ + decimal(n);
            let operand = "{"@ + name + ":"@ + rw.mods + "}"@;
            let copy_in = if op.in_expr is None {
                Seq::empty()
            } else if att {
                "mov "@ + operand + ", %"@ + rw.reg + "\n"@
            } else {
                "mov "@ + rw.reg + ", "@ + operand + "\n"@
            };
            let copy_out = if op.out_expr is None {
                Seq::empty()
            } else if att {
                "\nmov %"@ + rw.reg + ", "@ + operand
            } else {
                "\nmov "@ + operand + ", "@ + rw.reg
            };
            &&& after.prolog == before.prolog + copy_in
            &&& after.epilog == before.epilog + copy_out
            &&& unnamed_positional_first(ops) ==> op == ops[rw.idx]
            &&& after.ops.len() == ops.len()
            &&& after.ops[to] == (OperandView {
                dir_spec: op.dir_spec,
                mem_only: op.mem_only,
                constraints: "reg"@,
                name: Some(name),
                in_expr: op.in_expr,
                out_expr: op.out_expr,
            })
            &&& rw.idx != to ==> after.ops[rw.idx] == before.ops[to]
            &&& forall|i: int|
                0 <= i < ops.len() && i != to && i != rw.idx ==> #[trigger] after.ops[i]
                    == before.ops[i]
        }),
{
    lemma_rewrites(ops, arch);
    lemma_only_counts(ops);
    lemma_moves_keep_count(ops, att, arch, n);
    let before = after_moves(ops, att, arch, n);
    let after = after_moves(ops, att, arch, n + 1);
    let rw = rewrites(ops, arch)[n as int];
    assert(0 <= rw.idx < ops.len());
    if unnamed_positional_first(ops) {
        lemma_moved_so_far(ops, att, arch, n);
        assert(before.ops[rw.idx] == ops[rw.idx]);
    }
    assert(after.ops.len() == ops.len());
    if before.ops[rw.idx].in_expr is None {
        assert(before.prolog + Seq::<char>::empty() =~= before.prolog);
    }
    if before.ops[rw.idx].out_expr is None {
        assert(before.epilog + Seq::<char>::empty() =~= before.epilog);
    }
}

proof fn lemma_moves_keep_count(ops: Seq<OperandView>, att: bool, arch: Arch, n: nat)
    requires
        n <= rewrites(ops, arch).len(),
    ensures
        after_moves(ops, att, arch, n).ops.len() == ops.len(),
    decreases n,
{
    if n > 0 {
        lemma_moves_keep_count(ops, att, arch, (n - 1) as nat);
        lemma_rewrites(ops, arch);
        lemma_only_counts(ops);
        assert(0 <= rewrites(ops, arch)[n - 1].idx < ops.len());
    }
}

/// Where no operand is in a reserved register, nothing is moved and nothing is
/// copied.
pub proof fn law_nothing_to_move(ops: Seq<OperandView>, att: bool, arch: Arch)
    ensures
        ({
            let none = after_moves(ops, att, arch, 0);
            none.ops == ops && none.prolog.len() == 0 && none.epilog.len() == 0
        }),
        reserved_moved(ops, att, arch) == after_moves(ops, att, arch, rewrites(ops, arch).len()),
{
}

} // verus!
