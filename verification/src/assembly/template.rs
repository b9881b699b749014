//! Assembly templates in LLVM syntax: which operands a template refers to, and
//! how the references are rewritten for `asm!`.

use crate::assembly::constraints::{rust_modifier, translate_modifier, Arch};
use crate::assembly::operands::{
    find_orig_idx, operand_views, position_of_orig, BidirAsmOperand, OperandView,
};
use crate::errors::{generic_error, ErrorView, TranslationError, TranslationResult};
use crate::text::{
    char_is_digit, char_is_letter, chars_of, copy_range, decimal, decimal_text, end_of_last,
    find_class, first_in, in_class, is_digit, is_letter, join, law_join_split, lemma_first_in,
    lemma_first_in_unique, lemma_split_pieces, parse_usize, push_all, push_range, push_text, split,
    split_at_char, string_of, texts, trim_to, trim_to_class, usize_of, CharClass,
};
use std::collections::HashSet;
use vstd::prelude::*;

verus! {

broadcast use vstd::std_specs::hash::group_hash_axioms;

/// The chunk follows a doubled `$`: the chunk before it is empty, and does not
/// itself follow a doubled `$`.
pub open spec fn after_escape(chunks: Seq<Seq<char>>, i: int) -> bool
    decreases i,
{
    i >= 2 && chunks[i - 1].len() == 0 && !after_escape(chunks, i - 1)
}

/// The chunk begins behind a single `$`, and something stands there.
pub open spec fn is_reference(chunks: Seq<Seq<char>>, i: int) -> bool {
    1 <= i < chunks.len() && !after_escape(chunks, i) && chunks[i].len() > 0
}

/// What stands in a braced reference before its modifiers: the chunk up to the
/// first `:` or `}`.
pub open spec fn braced_head(chunk: Seq<char>) -> Seq<char> {
    chunk.take(first_in(chunk, CharClass::OneOf(':', '}', '}'), 0))
}

/// The digits of a reference: of the form `N` or `xN`, those at the front, behind
/// at most one letter; in braces, the first ones before the modifiers.
pub open spec fn reference_digits(chunk: Seq<char>) -> Seq<char> {
    let text = if chunk[0] == '{' {
        braced_head(chunk)
    } else {
        chunk
    };
    let start = if chunk[0] == '{' {
        first_in(text, CharClass::Digit, 0)
    } else if is_letter(chunk[0]) {
        1
    } else {
        0
    };
    text.subrange(start, first_in(text, CharClass::NonDigit, start))
}

/// The operand indices that the first `n` chunks refer to, in order.
pub open spec fn references_in(chunks: Seq<Seq<char>>, n: int) -> Seq<usize>
    decreases n,
{
    if n <= 0 {
        Seq::empty()
    } else {
        let before = references_in(chunks, n - 1);
        if is_reference(chunks, n - 1) {
            match usize_of(reference_digits(chunks[n - 1])) {
                Some(idx) => before.push(idx),
                None => before,
            }
        } else {
            before
        }
    }
}

/// The operand indices that a template refers to, in order.
pub open spec fn references(template: Seq<char>) -> Seq<usize> {
    references_in(split(template, '$'), split(template, '$').len() as int)
}

fn digits_of_reference(chunk: &[char]) -> (res: Vec<char>)
    requires
        chunk@.len() > 0,
    ensures
        res@ == reference_digits(chunk@),
{
    if chunk[0] == '{' {
        let head_end = find_class(chunk, CharClass::OneOf(':', '}', '}'), 0);
        let head = copy_range(chunk, 0, head_end);
        assert(head@ == braced_head(chunk@));
        let start = find_class(head.as_slice(), CharClass::Digit, 0);
        let end = find_class(head.as_slice(), CharClass::NonDigit, start);
        return copy_range(head.as_slice(), start, end);
    }
    let start: usize = if char_is_letter(chunk[0]) {
        1
    } else {
        0
    };
    let end = find_class(chunk, CharClass::NonDigit, start);
    copy_range(chunk, start, end)
}

/// Collects the operand indices that a template refers to, in order.
fn scan_references(template: &str) -> (res: Vec<usize>)
    ensures
        res@ == references(template@),
{
    let all = chars_of(template);
    let pieces = split_at_char(all.as_slice(), '$');
    let ghost chunks = split(template@, '$');
    let mut out: Vec<usize> = Vec::new();
    let mut last_empty: bool = false;
    let mut i: usize = 0;
    while i < pieces.len()
        invariant
            i <= pieces@.len(),
            texts(pieces@) == chunks,
            i > 0 ==> last_empty == after_escape(chunks, i as int),
            i == 0 ==> !last_empty,
            out@ == references_in(chunks, i as int),
        decreases pieces@.len() - i,
    {
        assert(chunks[i as int] == pieces@[i as int]@);
        if i == 0 {
            assert(!after_escape(chunks, 1));
        } else if last_empty {
            last_empty = false;
        } else if pieces[i].len() == 0 {
            last_empty = true;
        } else {
            let digits = digits_of_reference(pieces[i].as_slice());
            if let Some(idx) = parse_usize(digits.as_slice()) {
                out.push(idx);
            }
        }
        i += 1;
    }
    out
}

/// Scan an (LLVM-syntax, `$`-escaped) asm template for any operand reference
/// (`$N`, `$xN`, or `${N:mod}`) whose index is `>= min_idx`. Used to detect
/// references to GNU asm-goto label operands, which are numbered
/// contiguously after all outputs and inputs, so no input/output data exists
/// for them.
pub fn references_operand_at_or_beyond(template: &str, min_idx: usize) -> (res: bool)
    ensures
        res == exists|k: int|
            0 <= k < references(template@).len() && #[trigger] references(template@)[k] >= min_idx,
{
    let refs = scan_references(template);
    let mut i: usize = 0;
    while i < refs.len()
        invariant
            i <= refs@.len(),
            refs@ == references(template@),
            forall|k: int| 0 <= k < i ==> #[trigger] refs@[k] < min_idx,
        decreases refs@.len() - i,
    {
        if refs[i] >= min_idx {
            assert(references(template@)[i as int] >= min_idx);
            return true;
        }
        i += 1;
    }
    false
}

/// Scan an (LLVM-syntax, `$`-escaped) asm template and collect every
/// operand index it references (`$N`, `$xN`, or `${N:mod}` forms).
///
/// GCC/Clang extended asm tolerates declaring an output operand that no
/// `%N` (here, already-lowered to `$N`) in the template ever writes to -
/// GCC simply never emits code touching that operand. Rust's `asm!` rejects
/// any operand that isn't referenced by the template outright ("argument
/// never used"). This is used to find such unreferenced output operands.
pub fn referenced_operand_indices(template: &str) -> (res: HashSet<usize>)
    ensures
        res@ == references(template@).to_set(),
{
    let refs = scan_references(template);
    let mut indices: HashSet<usize> = HashSet::new();
    let mut i: usize = 0;
    assert(refs@.take(0).to_set() =~= Set::<usize>::empty());
    while i < refs.len()
        invariant
            i <= refs@.len(),
            indices@ == refs@.take(i as int).to_set(),
        decreases refs@.len() - i,
    {
        indices.insert(refs[i]);
        proof {
            let before = refs@.take(i as int);
            let after = refs@.take(i + 1);
            assert(after == before.push(refs@[i as int]));
            assert(after.to_set() =~= before.to_set().insert(refs@[i as int])) by {
                assert forall|x: usize| after.to_set().contains(x) == before.to_set().insert(
                    refs@[i as int],
                ).contains(x) by {
                    if before.contains(x) {
                        let k = choose|k: int| 0 <= k < before.len() && before[k] == x;
                        assert(after[k] == x);
                    }
                    if x == refs@[i as int] {
                        assert(after[i as int] == x);
                    }
                }
            }
        }
        i += 1;
    }
    assert(refs@.take(refs@.len() as int) == refs@);
    indices
}

/// The two scans agree: a template refers to an operand at or beyond an index
/// exactly if one of the indices it refers to is that large.
pub proof fn law_scans_agree(template: Seq<char>, min_idx: usize)
    ensures
        (exists|k: int|
            0 <= k < references(template).len() && #[trigger] references(template)[k] >= min_idx)
            <==> (exists|idx: usize| #[trigger]
            references(template).to_set().contains(idx) && idx >= min_idx),
{
    let refs = references(template);
    if exists|k: int| 0 <= k < refs.len() && #[trigger] refs[k] >= min_idx {
        let k = choose|k: int| 0 <= k < refs.len() && #[trigger] refs[k] >= min_idx;
        assert(refs.to_set().contains(refs[k]));
    }
    if exists|idx: usize| #[trigger] refs.to_set().contains(idx) && idx >= min_idx {
        let idx = choose|idx: usize| #[trigger] refs.to_set().contains(idx) && idx >= min_idx;
        let k = choose|k: int| 0 <= k < refs.len() && refs[k] == idx;
        assert(refs[k] >= min_idx);
    }
}

/// The operands that the references of a template lead to.
#[derive(Debug)]
pub struct OperandTable {
    /// The operands in their final order.
    pub operands: Vec<BidirAsmOperand>,
    /// For each original operand, whether it is memory only.
    pub mem_only: Vec<bool>,
}

/// What an [`OperandTable`] says.
#[verifier::ext_equal]
pub struct TableView {
    pub operands: Seq<OperandView>,
    pub mem_only: Seq<bool>,
}

impl View for OperandTable {
    type V = TableView;

    open spec fn view(&self) -> TableView {
        TableView { operands: operand_views(self.operands@), mem_only: self.mem_only@ }
    }
}

impl TableView {
    /// The index in the final order of the operand that a reference leads to:
    /// the one that carries the index, as an output or as an input.
    pub open spec fn new_index(self, idx: int, template: Seq<char>) -> Result<int, ErrorView> {
        match position_of_orig(self.operands, idx, 0) {
            Some(i) => Ok(i),
            None => Err(
                generic_error(
                    "no operand had index "@ + decimal(idx as nat) + " in asm str:\n"@ + template,
                ),
            ),
        }
    }

    /// The original operand with this index, written out, is memory only.
    pub open spec fn refers_to_memory(self, index: Seq<char>) -> bool {
        match usize_of(index) {
            Some(idx) => idx < self.mem_only.len() && self.mem_only[idx as int],
            None => false,
        }
    }
}

impl OperandTable {
    /// Finds the index in the final order of the operand that a reference
    /// leads to.
    pub fn new_index(&self, idx: usize, template: &str) -> (res: TranslationResult<usize>)
        ensures
            match res {
                Ok(i) => self@.new_index(idx as int, template@) == Ok::<int, ErrorView>(i as int),
                Err(e) => self@.new_index(idx as int, template@) == Err::<int, ErrorView>(e@),
            },
    {
        match find_orig_idx(&self.operands, idx) {
            Some(i) => Ok(i),
            None => {
                let mut msg = chars_of("no operand had index ");
                let number = decimal_text(idx);
                push_all(&mut msg, number.as_slice());
                push_text(&mut msg, " in asm str:\n");
                push_text(&mut msg, template);
                let text = string_of(msg.as_slice());
                Err(TranslationError::generic(text.as_str()))
            },
        }
    }

    /// Whether the original operand with this index, written out, is memory
    /// only.
    pub fn is_mem_only(&self, index: &[char]) -> (res: bool)
        ensures
            res == self@.refers_to_memory(index@),
    {
        match parse_usize(index) {
            Some(idx) => idx < self.mem_only.len() && self.mem_only[idx],
            None => false,
        }
    }
}

/// The modifiers that have a translation, translated.
pub open spec fn translated_modifiers(modifiers: Seq<char>, arch: Arch) -> Seq<char>
    decreases modifiers.len(),
{
    if modifiers.len() == 0 {
        Seq::empty()
    } else {
        let before = translated_modifiers(modifiers.drop_last(), arch);
        match rust_modifier(modifiers.last(), arch) {
            Some(c) => before.push(c),
            None => before,
        }
    }
}

/// The error for a reference whose index is not a number.
pub open spec fn bad_index() -> ErrorView {
    generic_error("could not parse operand idx"@)
}

/// The index in a braced reference: the number before its modifiers, without
/// what stands around it.
pub open spec fn braced_index(chunk: Seq<char>) -> Option<usize> {
    usize_of(trim_to(braced_head(chunk), CharClass::Digit))
}

/// A chunk `{N:mods}...` or `{N}...`: the braces stay, the index is the new one,
/// the modifiers are translated. A chunk that does not close its brace stays as
/// it is, and so does one that has neither an index nor modifiers.
pub open spec fn braced_reference(
    chunk: Seq<char>,
    table: TableView,
    template: Seq<char>,
    arch: Arch,
) -> Result<Seq<char>, ErrorView> {
    let end = first_in(chunk, CharClass::Is('}'), 0);
    let colon = braced_head(chunk).len() as int;
    let mods = if colon < end {
        ":"@ + translated_modifiers(chunk.subrange(colon + 1, end), arch)
    } else {
        Seq::empty()
    };
    if end >= chunk.len() {
        Ok(chunk)
    } else {
        match braced_index(chunk) {
            None => if colon < end {
                Err(bad_index())
            } else {
                Ok(chunk)
            },
            Some(idx) => match table.new_index(idx as int, template) {
                Err(e) => Err(e),
                Ok(new_idx) => Ok("{"@ + decimal(new_idx as nat) + mods + chunk.skip(end)),
            },
        }
    }
}

/// What stands around a reference to memory.
pub open spec fn memory_bracket(mem: bool, att: bool, opening: bool) -> Seq<char> {
    if !mem {
        Seq::empty()
    } else if att {
        if opening {
            "("@
        } else {
            ")"@
        }
    } else {
        if opening {
            "["@
        } else {
            "]"@
        }
    }
}

/// A chunk `N...` or `xN...`: the index is the new one, in braces, with the
/// translated modifier behind a colon if there is one; around a reference to
/// memory stand brackets.
pub open spec fn plain_reference(
    chunk: Seq<char>,
    att: bool,
    table: TableView,
    template: Seq<char>,
    arch: Arch,
) -> Result<Seq<char>, ErrorView> {
    let end = first_in(chunk, CharClass::NonAlnum, 0);
    let first = if is_letter(chunk[0]) {
        1int
    } else {
        0
    };
    let index = chunk.subrange(first, end);
    let modifiers = translated_modifiers(chunk.take(first), arch);
    let mem = table.refers_to_memory(index);
    match usize_of(index) {
        None => Err(bad_index()),
        Some(idx) => match table.new_index(idx as int, template) {
            Err(e) => Err(e),
            Ok(new_idx) => Ok(
                memory_bracket(mem, att, true) + "{"@ + decimal(new_idx as nat) + (
                if modifiers.len() == 0 {
                    Seq::empty()
                } else {
                    ":"@ + modifiers
                }) + "}"@ + memory_bracket(mem, att, false) + chunk.skip(end),
            ),
        },
    }
}

/// What a chunk becomes: the first one stays; one behind `$$` follows a single
/// `$`; a reference is rewritten; anything else behind a `$` stays without it.
pub open spec fn rewritten_chunk(
    chunks: Seq<Seq<char>>,
    i: int,
    att: bool,
    table: TableView,
    template: Seq<char>,
    arch: Arch,
) -> Result<Seq<char>, ErrorView> {
    let chunk = chunks[i];
    if i == 0 {
        Ok(chunk)
    } else if after_escape(chunks, i) {
        Ok("$"@ + chunk)
    } else if chunk.len() == 0 {
        Ok(chunk)
    } else if chunk[0] == '{' {
        braced_reference(chunk, table, template, arch)
    } else if is_letter(chunk[0]) || is_digit(chunk[0]) {
        plain_reference(chunk, att, table, template, arch)
    } else {
        Ok(chunk)
    }
}

/// What the first `n` chunks become: the first error, or all of them.
pub open spec fn rewritten_chunks(
    chunks: Seq<Seq<char>>,
    n: int,
    att: bool,
    table: TableView,
    template: Seq<char>,
    arch: Arch,
) -> Result<Seq<char>, ErrorView>
    decreases n,
{
    if n <= 0 {
        Ok(Seq::empty())
    } else {
        match rewritten_chunks(chunks, n - 1, att, table, template, arch) {
            Err(e) => Err(e),
            Ok(before) => match rewritten_chunk(chunks, n - 1, att, table, template, arch) {
                Err(e) => Err(e),
                Ok(text) => Ok(before + text),
            },
        }
    }
}

/// What a template becomes.
pub open spec fn rewritten(
    template: Seq<char>,
    att: bool,
    table: TableView,
    arch: Arch,
) -> Result<Seq<char>, ErrorView> {
    let chunks = split(template, '$');
    rewritten_chunks(chunks, chunks.len() as int, att, table, template, arch)
}

/// A text or an error, viewed.
pub open spec fn text_view(r: TranslationResult<String>) -> Result<Seq<char>, ErrorView> {
    match r {
        Ok(s) => Ok(s@),
        Err(e) => Err(e@),
    }
}

fn push_modifiers(out: &mut Vec<char>, modifiers: &[char], arch: Arch)
    ensures
        final(out)@ == old(out)@ + translated_modifiers(modifiers@, arch),
{
    let mut i: usize = 0;
    while i < modifiers.len()
        invariant
            i <= modifiers@.len(),
            out@ == old(out)@ + translated_modifiers(modifiers@.take(i as int), arch),
        decreases modifiers@.len() - i,
    {
        assert(modifiers@.take(i + 1).drop_last() == modifiers@.take(i as int));
        if let Some(c) = translate_modifier(modifiers[i], arch) {
            out.push(c);
        }
        i += 1;
        assert(out@ == old(out)@ + translated_modifiers(modifiers@.take(i as int), arch));
    }
    assert(modifiers@.take(modifiers@.len() as int) == modifiers@);
}

fn rewrite_braced(
    chunk: &[char],
    table: &OperandTable,
    template: &str,
    arch: Arch,
) -> (res: TranslationResult<Vec<char>>)
    requires
        chunk@.len() > 0,
    ensures
        match res {
            Ok(text) => braced_reference(chunk@, table@, template@, arch) == Ok::<
                Seq<char>,
                ErrorView,
            >(text@),
            Err(e) => braced_reference(chunk@, table@, template@, arch) == Err::<
                Seq<char>,
                ErrorView,
            >(e@),
        },
{
    let mut out: Vec<char> = Vec::new();
    let end = find_class(chunk, CharClass::Is('}'), 0);
    if end >= chunk.len() {
        push_all(&mut out, chunk);
        assert(out@ == chunk@);
        return Ok(out);
    }
    let colon = find_class(chunk, CharClass::OneOf(':', '}', '}'), 0);
    proof {
        lemma_head_ends_inside(chunk@);
    }
    let head = copy_range(chunk, 0, colon);
    assert(head@ == braced_head(chunk@));
    let index = trim_to_class(head.as_slice(), CharClass::Digit);
    match parse_usize(index.as_slice()) {
        None => {
            if colon < end {
                Err(TranslationError::generic("could not parse operand idx"))
            } else {
                push_all(&mut out, chunk);
                assert(out@ == chunk@);
                Ok(out)
            }
        },
        Some(idx) => match table.new_index(idx, template) {
            Err(e) => Err(e),
            Ok(new_idx) => {
                push_text(&mut out, "{");
                let number = decimal_text(new_idx);
                push_all(&mut out, number.as_slice());
                let ghost before = out@;
                let ghost mods = if colon < end {
                    ":"@ + translated_modifiers(chunk@.subrange(colon + 1, end as int), arch)
                } else {
                    Seq::empty()
                };
                if colon < end {
                    push_text(&mut out, ":");
                    let modifiers = copy_range(chunk, colon + 1, end);
                    push_modifiers(&mut out, modifiers.as_slice(), arch);
                }
                assert(out@ == before + mods);
                push_range(&mut out, chunk, end, chunk.len());
                assert(chunk@.subrange(end as int, chunk@.len() as int) == chunk@.skip(end as int));
                assert(out@ == "{"@ + decimal(new_idx as nat) + mods + chunk@.skip(end as int));
                Ok(out)
            },
        },
    }
}

/// The part before the modifiers ends no later than the brace closes.
proof fn lemma_head_ends_inside(chunk: Seq<char>)
    ensures
        braced_head(chunk).len() == first_in(chunk, CharClass::OneOf(':', '}', '}'), 0),
        braced_head(chunk).len() <= first_in(chunk, CharClass::Is('}'), 0) <= chunk.len(),
{
    let end = first_in(chunk, CharClass::Is('}'), 0);
    let colon = first_in(chunk, CharClass::OneOf(':', '}', '}'), 0);
    lemma_first_in(chunk, CharClass::Is('}'), 0);
    lemma_first_in(chunk, CharClass::OneOf(':', '}', '}'), 0);
    if end < colon {
        assert(!in_class(CharClass::OneOf(':', '}', '}'), chunk[end]));
    }
}

fn push_bracket(out: &mut Vec<char>, mem: bool, att: bool, opening: bool)
    ensures
        final(out)@ == old(out)@ + memory_bracket(mem, att, opening),
{
    if mem {
        if att {
            push_text(out, if opening { "(" } else { ")" });
        } else {
            push_text(out, if opening { "[" } else { "]" });
        }
    }
    assert(out@ == old(out)@ + memory_bracket(mem, att, opening));
}

fn rewrite_plain(
    chunk: &[char],
    att: bool,
    table: &OperandTable,
    template: &str,
    arch: Arch,
) -> (res: TranslationResult<Vec<char>>)
    requires
        chunk@.len() > 0,
        is_letter(chunk@[0]) || is_digit(chunk@[0]),
    ensures
        match res {
            Ok(text) => plain_reference(chunk@, att, table@, template@, arch) == Ok::<
                Seq<char>,
                ErrorView,
            >(text@),
            Err(e) => plain_reference(chunk@, att, table@, template@, arch) == Err::<
                Seq<char>,
                ErrorView,
            >(e@),
        },
{
    let end = find_class(chunk, CharClass::NonAlnum, 0);
    proof {
        lemma_first_in(chunk@, CharClass::NonAlnum, 0);
    }
    let first: usize = if char_is_letter(chunk[0]) {
        1
    } else {
        0
    };
    let index_chars = copy_range(chunk, first, end);
    let index = index_chars.as_slice();
    let modifier_chars = copy_range(chunk, 0, first);
    assert(modifier_chars@ == chunk@.take(first as int));
    let mut modifiers: Vec<char> = Vec::new();
    push_modifiers(&mut modifiers, modifier_chars.as_slice(), arch);
    assert(modifiers@ == translated_modifiers(chunk@.take(first as int), arch));
    let mem = table.is_mem_only(index);
    match parse_usize(index) {
        None => Err(TranslationError::generic("could not parse operand idx")),
        Some(idx) => match table.new_index(idx, template) {
            Err(e) => Err(e),
            Ok(new_idx) => {
                let mut out: Vec<char> = Vec::new();
                push_bracket(&mut out, mem, att, true);
                push_text(&mut out, "{");
                let number = decimal_text(new_idx);
                push_all(&mut out, number.as_slice());
                let ghost head = out@;
                if modifiers.len() > 0 {
                    push_text(&mut out, ":");
                    push_all(&mut out, modifiers.as_slice());
                }
                let ghost mods_part = if modifiers@.len() == 0 {
                    Seq::empty()
                } else {
                    ":"@ + modifiers@
                };
                assert(out@ == head + mods_part);
                push_text(&mut out, "}");
                push_bracket(&mut out, mem, att, false);
                push_range(&mut out, chunk, end, chunk.len());
                assert(chunk@.subrange(end as int, chunk@.len() as int) == chunk@.skip(end as int));
                assert(out@ == memory_bracket(mem, att, true) + "{"@ + decimal(new_idx as nat)
                    + mods_part + "}"@ + memory_bracket(mem, att, false) + chunk@.skip(end as int));
                Ok(out)
            },
        },
    }
}

/// Rewrite a LLVM inline assembly template string into an asm!-compatible one
/// by translating its references to operands (of the form $0 or $x0) to {0} or
/// {0:y} (and wrapping mem-only references in brackets: round ones in AT&T
/// syntax, square ones otherwise).
pub fn rewrite_asm(
    template: &str,
    att_syntax: bool,
    table: &OperandTable,
    arch: Arch,
) -> (res: TranslationResult<String>)
    ensures
        text_view(res) == rewritten(template@, att_syntax, table@, arch),
{
    let all = chars_of(template);
    let pieces = split_at_char(all.as_slice(), '$');
    let ghost chunks = split(template@, '$');
    let mut out: Vec<char> = Vec::new();
    let mut last_empty: bool = false;
    let mut i: usize = 0;
    while i < pieces.len()
        invariant
            i <= pieces@.len(),
            texts(pieces@) == chunks,
            chunks == split(template@, '$'),
            i > 0 ==> last_empty == after_escape(chunks, i as int),
            i == 0 ==> !last_empty,
            rewritten_chunks(chunks, i as int, att_syntax, table@, template@, arch) == Ok::<
                Seq<char>,
                ErrorView,
            >(out@),
        decreases pieces@.len() - i,
    {
        assert(chunks[i as int] == pieces@[i as int]@);
        proof {
            lemma_error_stays(
                chunks,
                i + 1,
                chunks.len() as int,
                att_syntax,
                table@,
                template@,
                arch,
            );
        }
        let chunk = pieces[i].as_slice();
        if i == 0 {
            assert(!after_escape(chunks, 1));
            push_all(&mut out, chunk);
        } else if last_empty {
            last_empty = false;
            let ghost before = out@;
            push_text(&mut out, "$");
            push_all(&mut out, chunk);
            assert(out@ == before + ("$"@ + chunk@));
        } else if chunk.len() == 0 {
            last_empty = true;
            assert(out@ == out@ + chunk@);
        } else if chunk[0] == '{' {
            match rewrite_braced(chunk, table, template, arch) {
                Ok(text) => push_all(&mut out, text.as_slice()),
                Err(e) => return Err(e),
            }
        } else if char_is_letter(chunk[0]) || char_is_digit(chunk[0]) {
            match rewrite_plain(chunk, att_syntax, table, template, arch) {
                Ok(text) => push_all(&mut out, text.as_slice()),
                Err(e) => return Err(e),
            }
        } else {
            push_all(&mut out, chunk);
        }
        i += 1;
    }
    Ok(string_of(out.as_slice()))
}

proof fn lemma_error_stays(
    chunks: Seq<Seq<char>>,
    n: int,
    m: int,
    att: bool,
    table: TableView,
    template: Seq<char>,
    arch: Arch,
)
    requires
        n <= m,
    ensures
        rewritten_chunks(chunks, n, att, table, template, arch) matches Err(e)
            ==> rewritten_chunks(chunks, m, att, table, template, arch) == Err::<
            Seq<char>,
            ErrorView,
        >(e),
    decreases m - n,
{
    if n < m {
        lemma_error_stays(chunks, n, m - 1, att, table, template, arch);
    }
}

/// A text without the separator is one piece.
pub proof fn lemma_split_without(s: Seq<char>, c: char)
    requires
        !s.contains(c),
    ensures
        split(s, c) == seq![s],
    decreases s.len(),
{
    if s.len() > 0 {
        let front = s.drop_last();
        assert(!front.contains(c)) by {
            if front.contains(c) {
                let k = choose|k: int| 0 <= k < front.len() && front[k] == c;
                assert(s[k] == c);
            }
        }
        assert(s[s.len() - 1] == s.last());
        lemma_split_without(front, c);
        assert(front.push(s.last()) == s);
        assert(split(s, c) =~= seq![s]);
    } else {
        assert(s =~= Seq::empty());
    }
}

/// A template without `$` refers to nothing and stays as it is.
pub proof fn law_plain_template_stays(
    template: Seq<char>,
    att: bool,
    table: TableView,
    arch: Arch,
)
    requires
        !template.contains('$'),
    ensures
        references(template) == Seq::<usize>::empty(),
        rewritten(template, att, table, arch) == Ok::<Seq<char>, ErrorView>(template),
{
    lemma_split_without(template, '$');
    let chunks = seq![template];
    assert(references_in(chunks, 0) == Seq::<usize>::empty());
    assert(references_in(chunks, 1) == Seq::<usize>::empty());
    assert(rewritten_chunks(chunks, 0, att, table, template, arch) == Ok::<Seq<char>, ErrorView>(
        Seq::empty(),
    ));
    assert(Seq::<char>::empty() + template == template);
    assert(rewritten_chunks(chunks, 1, att, table, template, arch) == Ok::<Seq<char>, ErrorView>(
        template,
    ));
}

/// The text with every `$` doubled.
pub open spec fn doubled(s: Seq<char>) -> Seq<char>
    decreases s.len(),
{
    if s.len() == 0 {
        s
    } else if s.last() == '$' {
        doubled(s.drop_last()).push('$').push('$')
    } else {
        doubled(s.drop_last()).push(s.last())
    }
}

/// An empty chunk stands behind the one for piece `i`.
pub open spec fn gap_behind(chunks: Seq<Seq<char>>, i: int) -> bool {
    chunks[2 * i + 1].len() == 0
}

/// The second list is the first with an empty piece between any two.
pub open spec fn spread(pieces: Seq<Seq<char>>, chunks: Seq<Seq<char>>) -> bool {
    &&& chunks.len() == 2 * pieces.len() - 1
    &&& forall|i: int| 0 <= i < pieces.len() ==> #[trigger] pieces[i] == chunks[2 * i]
    &&& forall|i: int| 0 <= i < pieces.len() - 1 ==> #[trigger] gap_behind(chunks, i)
}

proof fn lemma_split_doubled(s: Seq<char>)
    ensures
        spread(split(s, '$'), split(doubled(s), '$')),
    decreases s.len(),
{
    if s.len() > 0 {
        let front = s.drop_last();
        lemma_split_doubled(front);
        lemma_split_pieces(front, '$');
        let pieces = split(front, '$');
        let chunks = split(doubled(front), '$');
        let empty = Seq::<char>::empty();
        if s.last() == '$' {
            let once = doubled(front).push('$');
            let twice = once.push('$');
            assert(once.drop_last() == doubled(front));
            assert(twice.drop_last() == once);
            assert(split(once, '$') == chunks.push(empty));
            assert(split(twice, '$') == chunks.push(empty).push(empty));
            assert(split(s, '$') == pieces.push(empty));
            let more = pieces.push(empty);
            let all = chunks.push(empty).push(empty);
            assert forall|i: int| 0 <= i < more.len() implies #[trigger] more[i] == all[2 * i] by {
                if i < pieces.len() {
                    assert(pieces[i] == chunks[2 * i]);
                }
            }
            assert forall|i: int| 0 <= i < more.len() - 1 implies #[trigger] gap_behind(
                all,
                i,
            ) by {
                if i < pieces.len() - 1 {
                    assert(gap_behind(chunks, i));
                    assert(all[2 * i + 1] == chunks[2 * i + 1]);
                }
            }
            assert(spread(more, all));
        } else {
            let c = s.last();
            let next = doubled(front).push(c);
            assert(next.drop_last() == doubled(front));
            let more = pieces.drop_last().push(pieces.last().push(c));
            let all = chunks.drop_last().push(chunks.last().push(c));
            assert(split(s, '$') == more);
            assert(split(doubled(s), '$') == all);
            assert(pieces[pieces.len() - 1] == chunks[2 * (pieces.len() - 1)]);
            assert forall|i: int| 0 <= i < more.len() implies #[trigger] more[i] == all[2 * i] by {
                if i < pieces.len() - 1 {
                    assert(pieces[i] == chunks[2 * i]);
                }
            }
            assert forall|i: int| 0 <= i < more.len() - 1 implies #[trigger] gap_behind(
                all,
                i,
            ) by {
                assert(gap_behind(chunks, i));
                assert(all[2 * i + 1] == chunks[2 * i + 1]);
            }
            assert(spread(more, all));
        }
    } else {
        assert(split(s, '$').len() == 1);
    }
}

proof fn lemma_spread_escapes(pieces: Seq<Seq<char>>, chunks: Seq<Seq<char>>, k: int)
    requires
        spread(pieces, chunks),
        0 <= k < pieces.len(),
    ensures
        !after_escape(chunks, 2 * k + 1),
        k > 0 ==> after_escape(chunks, 2 * k),
    decreases k,
{
    if k > 0 {
        lemma_spread_escapes(pieces, chunks, k - 1);
        assert(gap_behind(chunks, k - 1));
        assert(2 * (k - 1) + 1 == 2 * k - 1);
        assert(chunks[2 * k - 1].len() == 0);
        assert(after_escape(chunks, 2 * k));
    }
}

proof fn lemma_spread_rewritten(
    pieces: Seq<Seq<char>>,
    chunks: Seq<Seq<char>>,
    k: int,
    att: bool,
    table: TableView,
    template: Seq<char>,
    arch: Arch,
)
    requires
        spread(pieces, chunks),
        0 <= k < pieces.len(),
    ensures
        references_in(chunks, 2 * k + 1) == Seq::<usize>::empty(),
        rewritten_chunks(chunks, 2 * k + 1, att, table, template, arch) == Ok::<
            Seq<char>,
            ErrorView,
        >(join(pieces.take(k + 1), seq!['$'])),
    decreases k,
{
    reveal_strlit("$");
    assert("$"@ =~= seq!['$']);
    assert(pieces[k] == chunks[2 * k]);
    let upto = pieces.take(k + 1);
    if k == 0 {
        assert(references_in(chunks, 0) == Seq::<usize>::empty());
        assert(rewritten_chunks(chunks, 0, att, table, template, arch) == Ok::<
            Seq<char>,
            ErrorView,
        >(Seq::empty()));
        assert(Seq::<char>::empty() + chunks[0] == upto[0]);
    } else {
        lemma_spread_rewritten(pieces, chunks, k - 1, att, table, template, arch);
        lemma_spread_escapes(pieces, chunks, k);
        lemma_spread_escapes(pieces, chunks, k - 1);
        assert(2 * (k - 1) + 1 == 2 * k - 1);
        assert(gap_behind(chunks, k - 1));
        assert(chunks[2 * k - 1].len() == 0);
        let before = join(pieces.take(k), seq!['$']);
        assert(upto.drop_last() == pieces.take(k));
        assert(before + chunks[2 * k - 1] == before);
        assert(references_in(chunks, 2 * k) == Seq::<usize>::empty());
        assert(rewritten_chunks(chunks, 2 * k, att, table, template, arch) == Ok::<
            Seq<char>,
            ErrorView,
        >(before));
        assert(before + ("$"@ + chunks[2 * k]) == before + seq!['$'] + pieces[k]);
    }
}

/// A doubled `$` stands for one: a text with every `$` doubled refers to no
/// operand and is rewritten to the text.
pub proof fn law_doubled_text_comes_back(
    text: Seq<char>,
    att: bool,
    table: TableView,
    arch: Arch,
)
    ensures
        references(doubled(text)) == Seq::<usize>::empty(),
        rewritten(doubled(text), att, table, arch) == Ok::<Seq<char>, ErrorView>(text),
{
    let pieces = split(text, '$');
    let chunks = split(doubled(text), '$');
    lemma_split_doubled(text);
    lemma_split_pieces(text, '$');
    lemma_spread_rewritten(pieces, chunks, pieces.len() - 1, att, table, doubled(text), arch);
    assert(pieces.take(pieces.len() as int) == pieces);
    law_join_split(text, '$');
}

/// The place that is found is the first that carries the index.
pub proof fn lemma_position_of_orig(ops: Seq<OperandView>, orig_idx: int, from: int)
    requires
        0 <= from,
    ensures
        position_of_orig(ops, orig_idx, from) matches Some(i) ==> from <= i < ops.len()
            && ops[i].at_orig_idx(orig_idx),
        position_of_orig(ops, orig_idx, from) is None ==> forall|i: int|
            from <= i < ops.len() ==> !(#[trigger] ops[i]).at_orig_idx(orig_idx),
    decreases ops.len() - from,
{
    if from < ops.len() {
        lemma_position_of_orig(ops, orig_idx, from + 1);
    }
}

/// A reference leads to an operand that carries its index, and fails exactly if
/// there is none.
pub proof fn law_references_lead_to_operands(table: TableView, idx: int, template: Seq<char>)
    ensures
        table.new_index(idx, template) matches Ok(i) ==> 0 <= i < table.operands.len()
            && table.operands[i].at_orig_idx(idx),
        table.new_index(idx, template) is Err <==> forall|i: int|
            0 <= i < table.operands.len() ==> !(#[trigger] table.operands[i]).at_orig_idx(idx),
{
    lemma_position_of_orig(table.operands, idx, 0);
}

/// The chunk is a reference to the operand with this index: `N`, `xN`, `{N}` or
/// `{N:mods}`.
pub open spec fn refers_to(chunks: Seq<Seq<char>>, i: int, idx: usize) -> bool {
    &&& is_reference(chunks, i)
    &&& usize_of(reference_digits(chunks[i])) == Some(idx)
    &&& chunks[i][0] == '{' ==> first_in(chunks[i], CharClass::Is('}'), 0) < chunks[i].len()
        && braced_index(chunks[i]) is Some
}

/// What stands before the brace of a rewritten reference.
pub open spec fn reference_bracket(chunk: Seq<char>, att: bool, table: TableView) -> Seq<char> {
    if chunk[0] == '{' {
        Seq::empty()
    } else {
        memory_bracket(table.refers_to_memory(reference_digits(chunk)), att, true)
    }
}

proof fn lemma_end_of_last(s: Seq<char>, class: CharClass, upto: int)
    requires
        0 <= upto <= s.len(),
    ensures
        ({
            let end = end_of_last(s, class, upto);
            &&& 0 <= end <= upto
            &&& end > 0 ==> in_class(class, s[end - 1])
            &&& forall|k: int| end <= k < upto ==> !in_class(class, #[trigger] s[k])
        }),
    decreases upto,
{
    if upto > 0 {
        lemma_end_of_last(s, class, upto - 1);
    }
}

/// Where braces hold one number, it is the one that the scan finds.
proof fn lemma_braced_digits(chunk: Seq<char>)
    requires
        chunk.len() > 0,
        chunk[0] == '{',
        braced_index(chunk) is Some,
    ensures
        trim_to(braced_head(chunk), CharClass::Digit) == reference_digits(chunk),
{
    let head = braced_head(chunk);
    let start = first_in(head, CharClass::Digit, 0);
    let end = end_of_last(head, CharClass::Digit, head.len() as int);
    let index = trim_to(head, CharClass::Digit);
    lemma_first_in(head, CharClass::Digit, 0);
    lemma_end_of_last(head, CharClass::Digit, head.len() as int);
    assert(index == head.subrange(start, end));
    assert forall|k: int| start <= k < end implies !in_class(
        CharClass::NonDigit,
        #[trigger] head[k],
    ) by {
        assert(index[k - start] == head[k]);
        assert(is_digit(index[k - start]));
    }
    if end < head.len() {
        assert(!in_class(CharClass::Digit, head[end]));
    }
    lemma_first_in_unique(head, CharClass::NonDigit, start, end);
}

proof fn lemma_plain_digits(chunk: Seq<char>)
    requires
        chunk.len() > 0,
        is_letter(chunk[0]) || is_digit(chunk[0]),
    ensures
        ({
            let first = if is_letter(chunk[0]) {
                1int
            } else {
                0
            };
            let index = chunk.subrange(first, first_in(chunk, CharClass::NonAlnum, 0));
            usize_of(index) is Some ==> index == reference_digits(chunk)
        }),
{
    let first = if is_letter(chunk[0]) {
        1int
    } else {
        0
    };
    let end = first_in(chunk, CharClass::NonAlnum, 0);
    lemma_first_in(chunk, CharClass::NonAlnum, 0);
    assert(end >= 1);
    let index = chunk.subrange(first, end);
    if usize_of(index) is Some {
        assert forall|k: int| first <= k < end implies !in_class(
            CharClass::NonDigit,
            #[trigger] chunk[k],
        ) by {
            assert(index[k - first] == chunk[k]);
            assert(is_digit(index[k - first]));
        }
        if end < chunk.len() {
            assert(in_class(CharClass::NonDigit, chunk[end]));
        }
        lemma_first_in_unique(chunk, CharClass::NonDigit, first, end);
    }
}

proof fn lemma_chunk_is_ok(
    chunks: Seq<Seq<char>>,
    i: int,
    n: int,
    att: bool,
    table: TableView,
    template: Seq<char>,
    arch: Arch,
)
    requires
        0 <= i < n,
        rewritten_chunks(chunks, n, att, table, template, arch) is Ok,
    ensures
        rewritten_chunk(chunks, i, att, table, template, arch) is Ok,
    decreases n,
{
    if i < n - 1 {
        lemma_chunk_is_ok(chunks, i, n - 1, att, table, template, arch);
    }
}

/// In a template that is rewritten, a reference to the operand with an index
/// becomes a reference to an operand that carries this index.
pub proof fn law_references_are_rewritten(
    template: Seq<char>,
    att: bool,
    table: TableView,
    arch: Arch,
    i: int,
    idx: usize,
)
    requires
        refers_to(split(template, '$'), i, idx),
        rewritten(template, att, table, arch) is Ok,
    ensures
        ({
            let chunks = split(template, '$');
            exists|k: int|
                0 <= k < table.operands.len() && #[trigger] table.operands[k].at_orig_idx(
                    idx as int,
                ) && (rewritten_chunk(chunks, i, att, table, template, arch) matches Ok(text) && (
                reference_bracket(chunks[i], att, table) + "{"@ + decimal(
                    k as nat,
                )).is_prefix_of(text))
        }),
{
    let chunks = split(template, '$');
    let chunk = chunks[i];
    lemma_chunk_is_ok(chunks, i, chunks.len() as int, att, table, template, arch);
    let text = rewritten_chunk(chunks, i, att, table, template, arch)->Ok_0;
    if chunk[0] == '{' {
        lemma_braced_digits(chunk);
    } else {
        assert(is_letter(chunk[0]) || is_digit(chunk[0])) by {
            lemma_first_in(chunk, CharClass::NonDigit, 0);
            if !is_letter(chunk[0]) && !is_digit(chunk[0]) {
                assert(in_class(CharClass::NonDigit, chunk[0]));
                assert(reference_digits(chunk).len() == 0);
            }
        }
        lemma_plain_digits(chunk);
    }
    law_references_lead_to_operands(table, idx as int, template);
    let k = table.new_index(idx as int, template)->Ok_0;
    let head = reference_bracket(chunk, att, table) + "{"@ + decimal(k as nat);
    assert(head =~= text.subrange(0, head.len() as int));
    assert(table.operands[k].at_orig_idx(idx as int));
}

} // verus!
