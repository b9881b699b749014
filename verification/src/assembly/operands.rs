//! The operands of an `asm!`, in which the separate outputs and inputs of GNU
//! asm become one list, and the ties between them.

use crate::assembly::constraints::ArgDirSpec;
use crate::errors::opt_text;
use crate::text::{chars_of, contains_char};
use vstd::prelude::*;

verus! {

/// An expression of the C syntax tree, by its number there.
#[derive(Clone, Copy, PartialEq, Eq, Structural, Debug)]
pub struct CExprId(pub u64);

/// An output or input of a GNU asm statement.
#[derive(Clone, Debug)]
pub struct AsmOperand {
    pub constraints: String,
    pub expression: CExprId,
}

/// Rust-native `asm!` operands, which may be inputs, outputs, or both. The
/// expressions carry their index in the original [outputs...inputs].
#[derive(Clone, Debug)]
pub struct BidirAsmOperand {
    pub dir_spec: ArgDirSpec,
    pub mem_only: bool,
    pub constraints: String,
    pub name: Option<String>,
    pub in_expr: Option<(usize, CExprId)>,
    pub out_expr: Option<(usize, CExprId)>,
}

/// What a [`BidirAsmOperand`] says.
#[verifier::ext_equal]
pub struct OperandView {
    pub dir_spec: ArgDirSpec,
    pub mem_only: bool,
    pub constraints: Seq<char>,
    pub name: Option<Seq<char>>,
    pub in_expr: Option<(usize, CExprId)>,
    pub out_expr: Option<(usize, CExprId)>,
}

impl View for BidirAsmOperand {
    type V = OperandView;

    open spec fn view(&self) -> OperandView {
        OperandView {
            dir_spec: self.dir_spec,
            mem_only: self.mem_only,
            constraints: self.constraints@,
            name: opt_text(self.name),
            in_expr: self.in_expr,
            out_expr: self.out_expr,
        }
    }
}

/// The views of a list of operands.
pub open spec fn operand_views(ops: Seq<BidirAsmOperand>) -> Seq<OperandView> {
    Seq::new(ops.len(), |i: int| ops[i]@)
}

impl OperandView {
    /// Neither named nor in an explicit register.
    pub open spec fn positional(self) -> bool {
        !self.constraints.contains('"') && self.name is None
    }

    /// Stands at this index in the original [outputs...inputs], as an output
    /// or as an input.
    pub open spec fn at_orig_idx(self, orig_idx: int) -> bool {
        ||| self.out_expr matches Some((idx, _)) && idx == orig_idx
        ||| self.in_expr matches Some((idx, _)) && idx == orig_idx
    }
}

impl BidirAsmOperand {
    /// Return whether an operand is positional (as opposed to named or using
    /// an explicit register).
    pub fn is_positional(&self) -> (res: bool)
        ensures
            res == self@.positional(),
    {
        let cs = chars_of(self.constraints.as_str());
        !contains_char(cs.as_slice(), '"') && self.name.is_none()
    }

    /// Return whether this operand occurs at the given position in the
    /// original sequence of [outputs...inputs]. For tied operands, both input
    /// and output index is considered.
    pub fn has_orig_idx(&self, orig_idx: usize) -> (res: bool)
        ensures
            res == self@.at_orig_idx(orig_idx as int),
    {
        if let Some((idx, _)) = self.out_expr {
            if idx == orig_idx {
                return true;
            }
        }
        if let Some((idx, _)) = self.in_expr {
            if idx == orig_idx {
                return true;
            }
        }
        false
    }
}

/// The first operand at or after `from` that stands at the original index.
pub open spec fn position_of_orig(ops: Seq<OperandView>, orig_idx: int, from: int) -> Option<int>
    decreases ops.len() - from,
{
    if from < 0 || from >= ops.len() {
        None
    } else if ops[from].at_orig_idx(orig_idx) {
        Some(from)
    } else {
        position_of_orig(ops, orig_idx, from + 1)
    }
}

/// Finds the operand that stands at the original index.
pub fn find_orig_idx(ops: &Vec<BidirAsmOperand>, orig_idx: usize) -> (res: Option<usize>)
    ensures
        match res {
            Some(i) => i < ops@.len() && position_of_orig(
                operand_views(ops@),
                orig_idx as int,
                0,
            ) == Some(i as int),
            None => position_of_orig(operand_views(ops@), orig_idx as int, 0) is None,
        },
{
    let ghost views = operand_views(ops@);
    let mut i: usize = 0;
    while i < ops.len()
        invariant
            i <= ops@.len(),
            views == operand_views(ops@),
            position_of_orig(views, orig_idx as int, 0) == position_of_orig(
                views,
                orig_idx as int,
                i as int,
            ),
        decreases ops@.len() - i,
    {
        assert(views[i as int] == ops@[i as int]@);
        if ops[i].has_orig_idx(orig_idx) {
            return Some(i);
        }
        i += 1;
    }
    None
}

/// The operands that are positional, or those that are not, in order.
pub open spec fn only(ops: Seq<OperandView>, positional: bool) -> Seq<OperandView>
    decreases ops.len(),
{
    if ops.len() == 0 {
        Seq::empty()
    } else {
        let before = only(ops.drop_last(), positional);
        if ops.last().positional() == positional {
            before.push(ops.last())
        } else {
            before
        }
    }
}

/// The operands with the positional ones first, otherwise in order.
pub open spec fn positional_first(ops: Seq<OperandView>) -> Seq<OperandView> {
    only(ops, true) + only(ops, false)
}

/// Every operand is in one of the two parts.
pub proof fn lemma_only_counts(ops: Seq<OperandView>)
    ensures
        only(ops, true).len() + only(ops, false).len() == ops.len(),
        forall|i: int|
            0 <= i < only(ops, true).len() ==> (#[trigger] only(ops, true)[i]).positional(),
        forall|i: int|
            0 <= i < only(ops, false).len() ==> !(#[trigger] only(ops, false)[i]).positional(),
    decreases ops.len(),
{
    if ops.len() > 0 {
        lemma_only_counts(ops.drop_last());
    }
}

/// Sorts positional operands before named ones and explicit registers.
pub fn sort_positional_first(args: Vec<BidirAsmOperand>) -> (res: Vec<BidirAsmOperand>)
    ensures
        operand_views(res@) == positional_first(operand_views(args@)),
{
    let ghost all = operand_views(args@);
    let mut rest = args;
    let mut front: Vec<BidirAsmOperand> = Vec::new();
    let mut back: Vec<BidirAsmOperand> = Vec::new();
    let ghost mut done: int = 0;
    assert(operand_views(front@) == only(all.take(0), true));
    assert(operand_views(back@) == only(all.take(0), false));
    assert(all.skip(0) == all);
    while rest.len() > 0
        invariant
            done + rest@.len() == all.len(),
            0 <= done,
            operand_views(rest@) == all.skip(done),
            operand_views(front@) == only(all.take(done), true),
            operand_views(back@) == only(all.take(done), false),
        decreases rest@.len(),
    {
        let ghost old_rest = rest@;
        let ghost old_front = front@;
        let ghost old_back = back@;
        let op = rest.remove(0);
        proof {
            assert(op@ == operand_views(old_rest)[0]);
            assert(all.skip(done)[0] == all[done]);
            assert(operand_views(rest@) == all.skip(done + 1)) by {
                assert forall|i: int| 0 <= i < rest@.len() implies #[trigger] operand_views(
                    rest@,
                )[i] == all.skip(done + 1)[i] by {
                    assert(rest@[i] == old_rest[i + 1]);
                    assert(operand_views(old_rest)[i + 1] == all.skip(done)[i + 1]);
                }
            }
            assert(all.take(done + 1).drop_last() == all.take(done));
            assert(all.take(done + 1).last() == op@);
        }
        if op.is_positional() {
            front.push(op);
            assert(operand_views(front@) == operand_views(old_front).push(op@));
        } else {
            back.push(op);
            assert(operand_views(back@) == operand_views(old_back).push(op@));
        }
        proof {
            done = done + 1;
        }
    }
    assert(all.take(done) == all);
    let ghost f = front@;
    let ghost b = back@;
    front.append(&mut back);
    assert(operand_views(front@) == operand_views(f) + operand_views(b));
    front
}

/// The ties between inputs and outputs: an output is found by `(index, true)`
/// and leads to the input, an input by `(index, false)` and leads to the
/// output.
#[derive(Debug)]
pub struct TiedOperands {
    pub entries: Vec<((usize, bool), usize)>,
}

impl TiedOperands {
    /// No key occurs twice.
    pub open spec fn wf(self) -> bool {
        forall|i: int, j: int|
            0 <= i < j < self.entries@.len() ==> (#[trigger] self.entries@[i]).0 != (
            #[trigger] self.entries@[j]).0
    }

    /// The position of a key.
    pub open spec fn index_of(self, key: (usize, bool)) -> int {
        choose|i: int| 0 <= i < self.entries@.len() && (#[trigger] self.entries@[i]).0 == key
    }

    /// There is an entry for the key.
    pub open spec fn has(self, key: (usize, bool)) -> bool {
        exists|i: int| 0 <= i < self.entries@.len() && (#[trigger] self.entries@[i]).0 == key
    }
}

impl View for TiedOperands {
    type V = Map<(usize, bool), usize>;

    open spec fn view(&self) -> Map<(usize, bool), usize> {
        Map::new(|key: (usize, bool)| self.has(key), |key: (usize, bool)| self.entries@[self.index_of(key)].1)
    }
}

impl TiedOperands {
    /// No ties.
    pub fn new() -> (res: Self)
        ensures
            res.wf(),
            res@ == Map::<(usize, bool), usize>::empty(),
    {
        let res = TiedOperands { entries: Vec::new() };
        assert(res@ == Map::<(usize, bool), usize>::empty());
        res
    }

    fn position(&self, key: (usize, bool)) -> (res: Option<usize>)
        requires
            self.wf(),
        ensures
            match res {
                Some(i) => i < self.entries@.len() && self.entries@[i as int].0 == key
                    && self.has(key) && self.index_of(key) == i,
                None => !self.has(key),
            },
    {
        let mut i: usize = 0;
        while i < self.entries.len()
            invariant
                i <= self.entries@.len(),
                self.wf(),
                forall|j: int| 0 <= j < i ==> (#[trigger] self.entries@[j]).0 != key,
            decreases self.entries@.len() - i,
        {
            let k = self.entries[i].0;
            if k.0 == key.0 && k.1 == key.1 {
                assert(self.entries@[i as int].0 == key);
                assert(self.has(key));
                let ghost c = self.index_of(key);
                assert(self.entries@[c].0 == key);
                assert(c == i);
                return Some(i);
            }
            i += 1;
        }
        None
    }

    /// What the key leads to.
    pub fn get(&self, key: (usize, bool)) -> (res: Option<usize>)
        requires
            self.wf(),
        ensures
            res == if self@.contains_key(key) {
                Some(self@[key])
            } else {
                None
            },
    {
        match self.position(key) {
            Some(i) => Some(self.entries[i].1),
            None => None,
        }
    }

    /// Makes the key lead to `value`, whatever it led to before.
    pub fn insert(&mut self, key: (usize, bool), value: usize)
        requires
            old(self).wf(),
        ensures
            final(self).wf(),
            final(self)@ == old(self)@.insert(key, value),
    {
        let ghost before = *self;
        match self.position(key) {
            Some(i) => {
                self.entries.set(i, (key, value));
                let ghost after = *self;
                proof {
                    assert(after.entries@ == before.entries@.update(i as int, (key, value)));
                    assert(after.wf());
                    assert forall|k: (usize, bool)| after.has(k) == before.has(k) by {
                        if before.has(k) {
                            let j = before.index_of(k);
                            assert(before.entries@[j].0 == k);
                            assert(after.entries@[j].0 == k);
                        }
                        if after.has(k) {
                            let j = after.index_of(k);
                            assert(after.entries@[j].0 == k);
                            assert(before.entries@[j].0 == k);
                        }
                    }
                    assert forall|k: (usize, bool)| #[trigger]
                        after@.contains_key(k) implies after@[k] == before@.insert(key, value)[k] by {
                        let j = after.index_of(k);
                        assert(after.entries@[j].0 == k);
                        if k == key {
                            assert(j == i);
                        } else {
                            assert(before.entries@[j].0 == k);
                            let l = before.index_of(k);
                            assert(before.entries@[l].0 == k);
                        }
                    }
                    assert(after@ == before@.insert(key, value));
                }
            },
            None => {
                self.entries.push((key, value));
                let ghost after = *self;
                proof {
                    let n = before.entries@.len() as int;
                    assert(after.entries@[n] == (key, value));
                    assert(after.wf()) by {
                        assert forall|i: int, j: int| 0 <= i < j < after.entries@.len() implies (
                        #[trigger] after.entries@[i]).0 != (#[trigger] after.entries@[j]).0 by {
                            assert(after.entries@[i] == before.entries@[i]);
                            if j < n {
                                assert(after.entries@[j] == before.entries@[j]);
                            }
                        }
                    }
                    assert forall|k: (usize, bool)| after.has(k) == (before.has(k) || k == key) by {
                        if before.has(k) {
                            let j = before.index_of(k);
                            assert(before.entries@[j].0 == k);
                            assert(after.entries@[j].0 == k);
                        }
                        if after.has(k) {
                            let j = after.index_of(k);
                            assert(after.entries@[j].0 == k);
                            if j < n {
                                assert(before.entries@[j].0 == k);
                            }
                        }
                    }
                    assert forall|k: (usize, bool)| #[trigger]
                        after@.contains_key(k) implies after@[k] == before@.insert(key, value)[k] by {
                        let j = after.index_of(k);
                        assert(after.entries@[j].0 == k);
                        if k != key {
                            assert(before.has(k));
                            let l = before.index_of(k);
                            assert(before.entries@[l].0 == k);
                            assert(after.entries@[l].0 == k);
                            assert(j == l);
                        }
                    }
                    assert(after@ == before@.insert(key, value));
                }
            },
        }
    }
}

/// An operand is positional exactly if it has no name and no quote in its
/// constraint, and stands at the indices of its output and of its input.
pub proof fn law_operands_by_name_and_index(op: OperandView, idx: int)
    ensures
        op.positional() <==> op.name is None && forall|i: int|
            0 <= i < op.constraints.len() ==> #[trigger] op.constraints[i] != '"',
        op.at_orig_idx(idx) <==> (match op.out_expr {
            Some((o, _)) => o == idx,
            None => false,
        }) || (match op.in_expr {
            Some((i, _)) => i == idx,
            None => false,
        }),
{
    if op.constraints.contains('"') {
        let k = choose|k: int| 0 <= k < op.constraints.len() && op.constraints[k] == '"';
        assert(op.constraints[k] == '"');
    }
}

/// Sorting keeps the order among the positional operands and among the others,
/// and puts the positional ones first.
pub proof fn law_sorting_is_stable(ops: Seq<OperandView>)
    ensures
        positional_first(ops) == ops.filter(
            |op: OperandView| !op.constraints.contains('"') && op.name is None,
        ) + ops.filter(|op: OperandView| op.constraints.contains('"') || op.name is Some),
    decreases ops.len(),
{
    lemma_only_filters(ops);
}

proof fn lemma_only_filters(ops: Seq<OperandView>)
    ensures
        only(ops, true) == ops.filter(
            |op: OperandView| !op.constraints.contains('"') && op.name is None,
        ),
        only(ops, false) == ops.filter(
            |op: OperandView| op.constraints.contains('"') || op.name is Some,
        ),
    decreases ops.len(),
{
    reveal(Seq::filter);
    if ops.len() > 0 {
        lemma_only_filters(ops.drop_last());
    }
}

} // verus!
