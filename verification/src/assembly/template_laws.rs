//! What rewriting a template does to the template: references are replaced one
//! by one, and all other text comes back as it is and where it is.

use crate::assembly::constraints::{rust_modifier, Arch};
use crate::assembly::operands::position_of_orig;
use crate::assembly::template::{
    after_escape, braced_head, braced_index, braced_reference, is_reference, lemma_position_of_orig,
    lemma_split_without, plain_reference, reference_digits, references, references_in, rewritten,
    rewritten_chunk, rewritten_chunks, translated_modifiers, TableView,
};
use crate::errors::{generic_error, ErrorView};
use crate::text::{
    decimal, end_of_last, first_in, in_class, is_digit, is_letter, law_trimming,
    lemma_first_in_unique, lemma_split_around, lemma_split_pieces, split, trim_to, usize_of,
    CharClass,
};
use vstd::prelude::*;

verus! {

/// The text ends where a `$` may follow that is a reference: it ends with `$$`
/// as often as there are, and not with a single `$`.
pub open spec fn is_open_end(p: Seq<char>) -> bool
    decreases p.len(),
{
    if p.len() == 0 || p.last() != '$' {
        true
    } else {
        p.len() >= 2 && p[p.len() - 2] == '$' && is_open_end(p.take(p.len() - 2))
    }
}

proof fn lemma_no_escape_left(p: Seq<char>, chunks: Seq<Seq<char>>)
    requires
        is_open_end(p),
        split(p, '$').is_prefix_of(chunks),
    ensures
        !after_escape(chunks, split(p, '$').len() as int),
    decreases p.len(),
{
    let front = split(p, '$');
    let n = front.len() as int;
    lemma_split_pieces(p, '$');
    assert(front =~= chunks.subrange(0, n));
    assert(chunks[n - 1] == front[n - 1]);
    if p.len() == 0 || p.last() != '$' {
        if n >= 2 {
            lemma_last_piece_holds_end(p, '$');
        }
    } else {
        let q = p.take(p.len() - 2);
        let none = Seq::<char>::empty();
        lemma_split_around(q, seq!['$'], '$');
        lemma_split_around(none, none, '$');
        assert(none.push('$') + none =~= seq!['$']);
        assert(split(none, '$') =~= seq![none]);
        assert(p =~= q.push('$') + seq!['$']);
        assert(front =~= split(q, '$') + seq![none, none]);
        lemma_split_pieces(q, '$');
        assert(split(q, '$') =~= chunks.subrange(0, n - 2));
        lemma_no_escape_left(q, chunks);
        assert(chunks[n - 2] == front[n - 2]);
        assert(front[n - 2] == none);
        assert(after_escape(chunks, n - 1));
    }
}

/// The operand is the first that carries the index.
pub open spec fn is_target(table: TableView, k: int, idx: usize) -> bool {
    &&& 0 <= k < table.operands.len()
    &&& table.operands[k].at_orig_idx(idx as int)
    &&& forall|j: int| 0 <= j < k ==> !(#[trigger] table.operands[j]).at_orig_idx(idx as int)
}

proof fn lemma_same_escapes(a: Seq<Seq<char>>, b: Seq<Seq<char>>, i: int)
    requires
        0 <= i <= a.len(),
        i <= b.len(),
        forall|j: int| 0 <= j < i ==> #[trigger] a[j] == b[j],
    ensures
        after_escape(a, i) == after_escape(b, i),
    decreases i,
{
    if i >= 2 {
        assert(a[i - 1] == b[i - 1]);
        lemma_same_escapes(a, b, i - 1);
    }
}

proof fn lemma_same_front(
    a: Seq<Seq<char>>,
    b: Seq<Seq<char>>,
    n: int,
    att: bool,
    table: TableView,
    ta: Seq<char>,
    tb: Seq<char>,
    arch: Arch,
)
    requires
        0 <= n <= a.len(),
        n <= b.len(),
        forall|j: int| 0 <= j < n ==> #[trigger] a[j] == b[j],
    ensures
        rewritten_chunks(a, n, att, table, ta, arch) matches Ok(text) ==> rewritten_chunks(
            b,
            n,
            att,
            table,
            tb,
            arch,
        ) == Ok::<Seq<char>, ErrorView>(text),
        references_in(a, n) == references_in(b, n),
    decreases n,
{
    if n > 0 {
        lemma_same_front(a, b, n - 1, att, table, ta, tb, arch);
        lemma_same_escapes(a, b, n - 1);
        assert(a[n - 1] == b[n - 1]);
        if rewritten_chunks(a, n, att, table, ta, arch) is Ok {
            assert(rewritten_chunk(a, n - 1, att, table, ta, arch) is Ok);
            assert(rewritten_chunk(a, n - 1, att, table, ta, arch) == rewritten_chunk(
                b,
                n - 1,
                att,
                table,
                tb,
                arch,
            ));
        }
    }
}

/// What one more chunk behind a `$` adds.
proof fn lemma_one_more_chunk(
    p: Seq<char>,
    chunk: Seq<char>,
    att: bool,
    table: TableView,
    arch: Arch,
)
    requires
        is_open_end(p),
        !chunk.contains('$'),
        rewritten(p, att, table, arch) is Ok,
    ensures
        ({
            let whole = p.push('$') + chunk;
            let chunks = split(whole, '$');
            let n = chunks.len() - 1;
            &&& n >= 1
            &&& chunks[n] == chunk
            &&& !after_escape(chunks, n)
            &&& rewritten(whole, att, table, arch) == match rewritten_chunk(
                chunks,
                n,
                att,
                table,
                whole,
                arch,
            ) {
                Ok(text) => Ok(rewritten(p, att, table, arch)->Ok_0 + text),
                Err(e) => Err(e),
            }
            &&& references(whole) == if is_reference(chunks, n) && usize_of(
                reference_digits(chunk),
            ) is Some {
                references(p).push(usize_of(reference_digits(chunk)).unwrap())
            } else {
                references(p)
            }
        }),
{
    let whole = p.push('$') + chunk;
    let chunks = split(whole, '$');
    let front = split(p, '$');
    lemma_split_around(p, chunk, '$');
    lemma_split_without(chunk, '$');
    lemma_split_pieces(p, '$');
    let n = front.len() as int;
    assert(chunks =~= front.push(chunk));
    assert forall|j: int| 0 <= j < n implies #[trigger] front[j] == chunks[j] by {}
    lemma_same_front(front, chunks, n, att, table, p, whole, arch);
    assert(front =~= chunks.subrange(0, n));
    lemma_no_escape_left(p, chunks);
}

/// The last piece of a text that does not end with the separator holds its last
/// character.
proof fn lemma_last_piece_holds_end(s: Seq<char>, c: char)
    requires
        s.len() > 0 ==> s.last() != c,
    ensures
        split(s, c).len() > 1 ==> split(s, c).last().len() > 0,
{
    if s.len() > 0 {
        lemma_split_pieces(s.drop_last(), c);
    }
}

/// A reference as it is written without braces: a letter or none, then digits.
pub open spec fn plain_form(letter: Option<char>, digits: Seq<char>) -> Seq<char> {
    match letter {
        Some(c) => seq![c] + digits,
        None => digits,
    }
}

spec fn bracket_before(is_mem: bool, att: bool) -> Seq<char> {
    if is_mem {
        if att {
            "("@
        } else {
            "["@
        }
    } else {
        ""@
    }
}

spec fn bracket_behind(is_mem: bool, att: bool) -> Seq<char> {
    if is_mem {
        if att {
            ")"@
        } else {
            "]"@
        }
    } else {
        ""@
    }
}

spec fn modifier_form(letter: Option<char>, arch: Arch) -> Seq<char> {
    match letter {
        Some(c) => match rust_modifier(c, arch) {
            Some(m) => ":"@.push(m),
            None => ""@,
        },
        None => ""@,
    }
}

proof fn lemma_plain_shape(letter: Option<char>, digits: Seq<char>, rest: Seq<char>)
    requires
        letter matches Some(c) ==> is_letter(c),
        usize_of(digits) is Some,
        !rest.contains('$'),
        rest.len() > 0 ==> !is_letter(rest[0]) && !is_digit(rest[0]),
    ensures
        ({
            let form = plain_form(letter, digits);
            let chunk = form + rest;
            let first: int = if letter is Some {
                1
            } else {
                0
            };
            let end = form.len() as int;
            &&& chunk.len() > 0
            &&& !chunk.contains('$')
            &&& chunk[0] != '{'
            &&& is_letter(chunk[0]) == (letter is Some)
            &&& is_letter(chunk[0]) || is_digit(chunk[0])
            &&& first_in(chunk, CharClass::NonAlnum, 0) == end
            &&& chunk.subrange(first, end) == digits
            &&& chunk.skip(end) == rest
            &&& reference_digits(chunk) == digits
        }),
{
    let form = plain_form(letter, digits);
    let chunk = form + rest;
    let first: int = if letter is Some {
        1
    } else {
        0
    };
    let end = form.len() as int;
    assert(is_digit(digits[0]));
    assert(chunk[0] == form[0]);
    assert forall|j: int| 0 <= j < end implies is_letter(#[trigger] chunk[j]) || is_digit(
        chunk[j],
    ) by {
        if j >= first {
            assert(chunk[j] == digits[j - first]);
        }
    }
    assert(!chunk.contains('$')) by {
        if chunk.contains('$') {
            let j = choose|j: int| 0 <= j < chunk.len() && chunk[j] == '$';
            if j >= end {
                assert(rest[j - end] == '$');
                assert(rest.contains('$'));
            } else {
                assert(is_letter(chunk[j]) || is_digit(chunk[j]));
            }
        }
    }
    assert forall|j: int| 0 <= j < end implies !in_class(
        CharClass::NonAlnum,
        #[trigger] chunk[j],
    ) by {
        assert(is_letter(chunk[j]) || is_digit(chunk[j]));
    }
    if end < chunk.len() {
        assert(chunk[end] == rest[0]);
    }
    lemma_first_in_unique(chunk, CharClass::NonAlnum, 0, end);
    assert forall|j: int| first <= j < end implies !in_class(
        CharClass::NonDigit,
        #[trigger] chunk[j],
    ) by {
        assert(chunk[j] == digits[j - first]);
    }
    lemma_first_in_unique(chunk, CharClass::NonDigit, first, end);
    assert(chunk.subrange(first, end) =~= digits);
    assert(chunk.skip(end) =~= rest);
}

proof fn lemma_letter_modifier(chunk: Seq<char>, letter: Option<char>, arch: Arch)
    requires
        letter matches Some(c) ==> chunk.len() > 0 && chunk[0] == c,
    ensures
        ({
            let first: int = if letter is Some {
                1
            } else {
                0
            };
            let mods = translated_modifiers(chunk.take(first), arch);
            modifier_form(letter, arch) == if mods.len() == 0 {
                Seq::empty()
            } else {
                ":"@ + mods
            }
        }),
{
    reveal_strlit("");
    assert(""@ =~= Seq::empty());
    match letter {
        Some(c) => {
            assert(chunk.take(1) =~= seq![c]);
            law_modifiers_are_translated_one_by_one(Seq::empty(), Seq::empty(), c, arch);
            if let Some(m) = rust_modifier(c, arch) {
                assert(":"@ + seq![m] =~= ":"@.push(m));
            }
        },
        None => {
            assert(chunk.take(0).len() == 0);
            assert(translated_modifiers(chunk.take(0), arch).len() == 0);
        },
    }
}

proof fn lemma_plain_text(
    letter: Option<char>,
    digits: Seq<char>,
    rest: Seq<char>,
    idx: usize,
    k: int,
    att: bool,
    table: TableView,
    template: Seq<char>,
    arch: Arch,
)
    requires
        letter matches Some(c) ==> is_letter(c),
        usize_of(digits) == Some(idx),
        !rest.contains('$'),
        rest.len() > 0 ==> !is_letter(rest[0]) && !is_digit(rest[0]),
        is_target(table, k, idx),
    ensures
        ({
            let is_mem = idx < table.mem_only.len() && table.mem_only[idx as int];
            plain_reference(plain_form(letter, digits) + rest, att, table, template, arch) == Ok::<
                Seq<char>,
                ErrorView,
            >(
                bracket_before(is_mem, att) + "{"@ + decimal(k as nat) + modifier_form(letter, arch)
                    + "}"@ + bracket_behind(is_mem, att) + rest,
            )
        }),
{
    reveal_strlit("");
    assert(""@ =~= Seq::empty());
    let chunk = plain_form(letter, digits) + rest;
    lemma_plain_shape(letter, digits, rest);
    lemma_target(table, k, idx, template);
    if let Some(c) = letter {
        assert(chunk[0] == c);
    }
    lemma_letter_modifier(chunk, letter, arch);
}

/// A plain reference `$N` or `$xN` is replaced by `{k}` or `{k:m}`, where `k` is
/// the operand that carries the index and `m` what the letter translates to,
/// with brackets around it if the operand is memory: round ones in AT&T syntax,
/// square ones otherwise. All that stands before and behind the reference is
/// kept.
pub proof fn law_plain_reference_is_replaced(
    p: Seq<char>,
    letter: Option<char>,
    digits: Seq<char>,
    rest: Seq<char>,
    idx: usize,
    k: int,
    att: bool,
    table: TableView,
    arch: Arch,
)
    requires
        is_open_end(p),
        rewritten(p, att, table, arch) is Ok,
        letter matches Some(c) ==> is_letter(c),
        usize_of(digits) == Some(idx),
        !rest.contains('$'),
        rest.len() > 0 ==> !is_letter(rest[0]) && !is_digit(rest[0]),
        is_target(table, k, idx),
    ensures
        ({
            let whole = p + "$"@ + plain_form(letter, digits) + rest;
            let before = rewritten(p, att, table, arch)->Ok_0;
            let is_mem = idx < table.mem_only.len() && table.mem_only[idx as int];
            let open = if is_mem {
                if att {
                    "("@
                } else {
                    "["@
                }
            } else {
                ""@
            };
            let close = if is_mem {
                if att {
                    ")"@
                } else {
                    "]"@
                }
            } else {
                ""@
            };
            let modifier = match letter {
                Some(c) => match rust_modifier(c, arch) {
                    Some(m) => ":"@.push(m),
                    None => ""@,
                },
                None => ""@,
            };
            &&& rewritten(whole, att, table, arch) == Ok::<Seq<char>, ErrorView>(
                before + (open + "{"@ + decimal(k as nat) + modifier + "}"@ + close + rest),
            )
            &&& references(whole) == references(p).push(idx)
        }),
{
    let form = plain_form(letter, digits);
    let chunk = form + rest;
    let whole = p + "$"@ + form + rest;
    lemma_regroup(p, form, rest);
    lemma_plain_shape(letter, digits, rest);
    lemma_one_more_chunk(p, chunk, att, table, arch);
    lemma_plain_text(letter, digits, rest, idx, k, att, table, whole, arch);
}

proof fn lemma_regroup(p: Seq<char>, form: Seq<char>, rest: Seq<char>)
    ensures
        p + "$"@ + form + rest == p.push('$') + (form + rest),
{
    reveal_strlit("$");
    assert(p + "$"@ + form + rest =~= p.push('$') + (form + rest));
}

proof fn lemma_target(table: TableView, k: int, idx: usize, template: Seq<char>)
    requires
        is_target(table, k, idx),
    ensures
        table.new_index(idx as int, template) == Ok::<int, ErrorView>(k),
{
    lemma_position_of_orig(table.operands, idx as int, 0);
    lemma_first_position(table, k, idx, 0);
}

proof fn lemma_first_position(table: TableView, k: int, idx: usize, from: int)
    requires
        is_target(table, k, idx),
        0 <= from <= k,
    ensures
        position_of_orig(table.operands, idx as int, from) == Some(k),
    decreases k - from,
{
    if from < k {
        lemma_first_position(table, k, idx, from + 1);
    }
}

/// A reference as it is written in braces: digits, and modifiers behind a colon
/// or none.
pub open spec fn braced_form(digits: Seq<char>, mods: Option<Seq<char>>) -> Seq<char> {
    match mods {
        Some(m) => "{"@ + digits + ":"@ + m + "}"@,
        None => "{"@ + digits + "}"@,
    }
}

/// A reference `${N}` or `${N:mods}` is replaced by `{k}` or `{k:mods}`, where `k`
/// is the operand that carries the index and the modifiers are translated. All
/// that stands before and behind the reference is kept.
pub proof fn law_braced_reference_is_replaced(
    p: Seq<char>,
    digits: Seq<char>,
    mods: Option<Seq<char>>,
    rest: Seq<char>,
    idx: usize,
    k: int,
    att: bool,
    table: TableView,
    arch: Arch,
)
    requires
        is_open_end(p),
        rewritten(p, att, table, arch) is Ok,
        usize_of(digits) == Some(idx),
        mods matches Some(m) ==> !m.contains('}') && !m.contains('$'),
        !rest.contains('$'),
        is_target(table, k, idx),
    ensures
        ({
            let whole = p + "$"@ + braced_form(digits, mods) + rest;
            let before = rewritten(p, att, table, arch)->Ok_0;
            let new_mods = match mods {
                Some(m) => Some(translated_modifiers(m, arch)),
                None => None,
            };
            &&& rewritten(whole, att, table, arch) == Ok::<Seq<char>, ErrorView>(
                before + (braced_form(decimal(k as nat), new_mods) + rest),
            )
            &&& references(whole) == references(p).push(idx)
        }),
{
    let form = braced_form(digits, mods);
    let chunk = form + rest;
    let whole = p + "$"@ + form + rest;
    lemma_regroup(p, form, rest);
    lemma_braced_shape(digits, mods, rest);
    lemma_one_more_chunk(p, chunk, att, table, arch);
    lemma_target(table, k, idx, whole);
    lemma_braced_text(decimal(k as nat), mods, rest, arch);
}

proof fn lemma_braced_text(
    number: Seq<char>,
    mods: Option<Seq<char>>,
    rest: Seq<char>,
    arch: Arch,
)
    ensures
        ({
            let new_mods = match mods {
                Some(m) => Some(translated_modifiers(m, arch)),
                None => None,
            };
            "{"@ + number + (match mods {
                Some(m) => ":"@ + translated_modifiers(m, arch),
                None => Seq::empty(),
            }) + ("}"@ + rest) == braced_form(number, new_mods) + rest
        }),
{
    let new_mods = match mods {
        Some(m) => Some(translated_modifiers(m, arch)),
        None => None,
    };
    assert("{"@ + number + (match mods {
        Some(m) => ":"@ + translated_modifiers(m, arch),
        None => Seq::empty(),
    }) + ("}"@ + rest) =~= braced_form(number, new_mods) + rest);
}

proof fn lemma_braced_shape(digits: Seq<char>, mods: Option<Seq<char>>, rest: Seq<char>)
    requires
        usize_of(digits) is Some,
        mods matches Some(m) ==> !m.contains('}') && !m.contains('$'),
        !rest.contains('$'),
    ensures
        ({
            let form = braced_form(digits, mods);
            let chunk = form + rest;
            let colon = 1 + digits.len() as int;
            let end = form.len() - 1;
            &&& chunk.len() > 0
            &&& chunk[0] == '{'
            &&& !chunk.contains('$')
            &&& first_in(chunk, CharClass::Is('}'), 0) == end
            &&& end < chunk.len()
            &&& braced_head(chunk).len() == colon
            &&& (mods is Some) == (colon < end)
            &&& trim_to(braced_head(chunk), CharClass::Digit) == digits
            &&& reference_digits(chunk) == digits
            &&& mods matches Some(m) ==> chunk.subrange(colon + 1, end) == m
            &&& chunk.skip(end) == "}"@ + rest
        }),
{
    reveal_strlit("{");
    reveal_strlit("}");
    reveal_strlit(":");
    let form = braced_form(digits, mods);
    let chunk = form + rest;
    let colon = 1 + digits.len() as int;
    let end = form.len() - 1;
    assert(chunk[0] == '{');
    assert forall|j: int| 1 <= j < colon implies is_digit(#[trigger] chunk[j]) by {
        assert(chunk[j] == digits[j - 1]);
    }
    assert(chunk[end] == '}');
    assert(chunk[colon] == if mods is Some {
        ':'
    } else {
        '}'
    });
    assert forall|j: int| colon < j < end implies chunk[j] != '}' && chunk[j] != '$' by {
        let m = mods.unwrap();
        assert(chunk[j] == m[j - colon - 1]);
        if m[j - colon - 1] == '}' {
            assert(m.contains('}'));
        }
        if m[j - colon - 1] == '$' {
            assert(m.contains('$'));
        }
    }
    assert(!chunk.contains('$')) by {
        if chunk.contains('$') {
            let j = choose|j: int| 0 <= j < chunk.len() && chunk[j] == '$';
            if j > end {
                assert(rest[j - form.len()] == '$');
                assert(rest.contains('$'));
            } else if 1 <= j < colon {
                assert(is_digit(chunk[j]));
            }
        }
    }
    let head_class = CharClass::OneOf(':', '}', '}');
    assert forall|j: int| 0 <= j < colon implies !in_class(head_class, #[trigger] chunk[j]) by {
        if j >= 1 {
            assert(is_digit(chunk[j]));
        }
    }
    lemma_first_in_unique(chunk, head_class, 0, colon);
    assert forall|j: int| 0 <= j < end implies !in_class(
        CharClass::Is('}'),
        #[trigger] chunk[j],
    ) by {
        if 1 <= j < colon {
            assert(is_digit(chunk[j]));
        }
    }
    lemma_first_in_unique(chunk, CharClass::Is('}'), 0, end);
    let head = braced_head(chunk);
    assert(head =~= chunk.take(colon));
    assert forall|j: int| 0 <= j < head.len() implies #[trigger] head[j] == chunk[j] by {}
    assert(is_digit(head[1])) by {
        assert(is_digit(chunk[1]));
    }
    lemma_first_in_unique(head, CharClass::Digit, 0, 1);
    assert(is_digit(head[colon - 1])) by {
        assert(is_digit(chunk[colon - 1]));
    }
    assert(end_of_last(head, CharClass::Digit, head.len() as int) == head.len());
    assert(head.subrange(1, colon) =~= digits);
    assert(trim_to(head, CharClass::Digit) == digits);
    assert forall|j: int| 1 <= j < colon implies !in_class(
        CharClass::NonDigit,
        #[trigger] head[j],
    ) by {
        assert(is_digit(chunk[j]));
    }
    lemma_first_in_unique(head, CharClass::NonDigit, 1, colon);
    assert(reference_digits(chunk) == digits);
    if mods is Some {
        assert(chunk.subrange(colon + 1, end) =~= mods.unwrap());
    }
    assert(chunk.skip(end) =~= "}"@ + rest);
}

/// A `$$` becomes one `$`, and is no reference.
pub proof fn law_escape_is_replaced(
    p: Seq<char>,
    rest: Seq<char>,
    att: bool,
    table: TableView,
    arch: Arch,
)
    requires
        is_open_end(p),
        rewritten(p, att, table, arch) is Ok,
        !rest.contains('$'),
    ensures
        rewritten(p + "$$"@ + rest, att, table, arch) == Ok::<Seq<char>, ErrorView>(
            rewritten(p, att, table, arch)->Ok_0 + "$"@ + rest,
        ),
        references(p + "$$"@ + rest) == references(p),
{
    reveal_strlit("$");
    reveal_strlit("$$");
    let whole = p + "$$"@ + rest;
    let open = p.push('$');
    let empty = Seq::<char>::empty();
    assert(whole =~= open.push('$') + rest);
    lemma_one_more_chunk(p, empty, att, table, arch);
    assert(p.push('$') + empty =~= open);
    let before = rewritten(p, att, table, arch)->Ok_0;
    assert(before + empty =~= before);
    assert(rewritten(open, att, table, arch) == Ok::<Seq<char>, ErrorView>(before));
    lemma_split_around(open, rest, '$');
    lemma_split_without(rest, '$');
    let front = split(open, '$');
    let chunks = split(whole, '$');
    let n = front.len() as int;
    assert(chunks =~= front.push(rest));
    assert forall|j: int| 0 <= j < n implies #[trigger] front[j] == chunks[j] by {}
    lemma_same_front(front, chunks, n, att, table, open, whole, arch);
    lemma_same_escapes(front, chunks, n - 1);
    assert(after_escape(chunks, n));
    assert(before + ("$"@ + rest) =~= before + "$"@ + rest);
}

/// A `$` before anything that no reference begins with is left out, and what
/// stands there is kept.
pub proof fn law_stray_dollar_is_dropped(
    p: Seq<char>,
    rest: Seq<char>,
    att: bool,
    table: TableView,
    arch: Arch,
)
    requires
        is_open_end(p),
        rewritten(p, att, table, arch) is Ok,
        rest.len() > 0,
        !rest.contains('$'),
        rest[0] != '{' && !is_letter(rest[0]) && !is_digit(rest[0]),
    ensures
        rewritten(p + "$"@ + rest, att, table, arch) == Ok::<Seq<char>, ErrorView>(
            rewritten(p, att, table, arch)->Ok_0 + rest,
        ),
        references(p + "$"@ + rest) == references(p),
{
    reveal_strlit("$");
    assert(p + "$"@ + rest =~= p.push('$') + rest);
    lemma_one_more_chunk(p, rest, att, table, arch);
    assert(in_class(CharClass::NonDigit, rest[0]));
    lemma_first_in_unique(rest, CharClass::NonDigit, 0, 0);
    assert(reference_digits(rest).len() == 0);
}

/// A plain reference to an index that no operand carries is refused, with the
/// index and the whole template in the message.
pub proof fn law_dangling_reference_is_refused(
    p: Seq<char>,
    digits: Seq<char>,
    rest: Seq<char>,
    idx: usize,
    att: bool,
    table: TableView,
    arch: Arch,
)
    requires
        is_open_end(p),
        rewritten(p, att, table, arch) is Ok,
        usize_of(digits) == Some(idx),
        !rest.contains('$'),
        rest.len() > 0 ==> !is_letter(rest[0]) && !is_digit(rest[0]),
        forall|j: int|
            0 <= j < table.operands.len() ==> !(#[trigger] table.operands[j]).at_orig_idx(
                idx as int,
            ),
    ensures
        ({
            let whole = p + "$"@ + digits + rest;
            rewritten(whole, att, table, arch) == Err::<Seq<char>, ErrorView>(
                generic_error(
                    "no operand had index "@ + decimal(idx as nat) + " in asm str:\n"@ + whole,
                ),
            )
        }),
{
    reveal_strlit("$");
    let chunk = digits + rest;
    let whole = p + "$"@ + digits + rest;
    let end = digits.len() as int;
    assert(whole =~= p.push('$') + chunk);
    assert(is_digit(digits[0]));
    assert(chunk[0] == digits[0]);
    assert forall|j: int| 0 <= j < end implies is_digit(#[trigger] chunk[j]) by {
        assert(chunk[j] == digits[j]);
    }
    assert(!chunk.contains('$')) by {
        if chunk.contains('$') {
            let j = choose|j: int| 0 <= j < chunk.len() && chunk[j] == '$';
            if j >= end {
                assert(rest[j - end] == '$');
                assert(rest.contains('$'));
            } else {
                assert(is_digit(chunk[j]));
            }
        }
    }
    lemma_one_more_chunk(p, chunk, att, table, arch);
    assert forall|j: int| 0 <= j < end implies !in_class(
        CharClass::NonAlnum,
        #[trigger] chunk[j],
    ) by {
        assert(is_digit(chunk[j]));
    }
    if end < chunk.len() {
        assert(chunk[end] == rest[0]);
    }
    lemma_first_in_unique(chunk, CharClass::NonAlnum, 0, end);
    assert(chunk.subrange(0, end) =~= digits);
    lemma_position_of_orig(table.operands, idx as int, 0);
}

/// The modifiers are translated one by one, and those without a translation are
/// left out.
pub proof fn law_modifiers_are_translated_one_by_one(
    a: Seq<char>,
    b: Seq<char>,
    c: char,
    arch: Arch,
)
    ensures
        translated_modifiers(a + b, arch) == translated_modifiers(a, arch) + translated_modifiers(
            b,
            arch,
        ),
        translated_modifiers(seq![c], arch) == match rust_modifier(c, arch) {
            Some(m) => seq![m],
            None => Seq::empty(),
        },
    decreases b.len(),
{
    assert(seq![c].drop_last() =~= Seq::empty());
    assert(translated_modifiers(Seq::empty(), arch) =~= Seq::empty());
    assert(translated_modifiers(seq![c], arch) =~= match rust_modifier(c, arch) {
        Some(m) => seq![m],
        None => Seq::empty(),
    });
    if b.len() == 0 {
        assert(a + b =~= a);
        assert(translated_modifiers(a, arch) + translated_modifiers(b, arch)
            =~= translated_modifiers(a, arch));
    } else {
        law_modifiers_are_translated_one_by_one(a, b.drop_last(), c, arch);
        assert((a + b).drop_last() =~= a + b.drop_last());
        assert((a + b).last() == b.last());
        assert(translated_modifiers(a + b, arch) =~= translated_modifiers(a, arch)
            + translated_modifiers(b, arch));
    }
}

/// The text in braces holds no index: what stands from its first to its last
/// digit is no number.
pub open spec fn has_no_index(inner: Seq<char>) -> bool {
    usize_of(trim_to("{"@ + inner, CharClass::Digit)) is None
}

/// Braces that hold neither an index nor a colon are no reference: they stay, and
/// only the `$` before them goes. So does a brace that is never closed.
pub proof fn law_braces_without_an_index_stay(
    p: Seq<char>,
    inner: Seq<char>,
    rest: Seq<char>,
    att: bool,
    table: TableView,
    arch: Arch,
)
    requires
        is_open_end(p),
        rewritten(p, att, table, arch) is Ok,
        !inner.contains('$') && !inner.contains('}'),
        !rest.contains('$'),
    ensures
        ({
            let before = rewritten(p, att, table, arch)->Ok_0;
            let closed = "{"@ + inner + "}"@ + rest;
            let open = "{"@ + inner;
            &&& !inner.contains(':') && has_no_index(inner) ==> rewritten(
                p + "$"@ + closed,
                att,
                table,
                arch,
            ) == Ok::<Seq<char>, ErrorView>(before + closed)
            &&& !inner.contains(':') && has_no_index(inner) && (forall|i: int|
                0 <= i < inner.len() ==> !is_digit(#[trigger] inner[i])) ==> references(
                p + "$"@ + closed,
            ) == references(p)
            &&& rewritten(p + "$"@ + open, att, table, arch) == Ok::<Seq<char>, ErrorView>(
                before + open,
            )
        }),
{
    reveal_strlit("$");
    reveal_strlit("{");
    reveal_strlit("}");
    let closed = "{"@ + inner + "}"@ + rest;
    let open = "{"@ + inner;
    let n = inner.len() as int;
    assert(p + "$"@ + closed =~= p.push('$') + closed);
    assert(p + "$"@ + open =~= p.push('$') + open);
    assert(closed[0] == '{' && open[0] == '{');
    assert(!closed.contains('$')) by {
        if closed.contains('$') {
            let j = choose|j: int| 0 <= j < closed.len() && closed[j] == '$';
            if 1 <= j <= n {
                assert(inner[j - 1] == '$');
                assert(inner.contains('$'));
            } else if j > n + 1 {
                assert(rest[j - n - 2] == '$');
                assert(rest.contains('$'));
            }
        }
    }
    assert(!open.contains('$')) by {
        if open.contains('$') {
            let j = choose|j: int| 0 <= j < open.len() && open[j] == '$';
            if j >= 1 {
                assert(inner[j - 1] == '$');
                assert(inner.contains('$'));
            }
        }
    }
    lemma_one_more_chunk(p, closed, att, table, arch);
    lemma_one_more_chunk(p, open, att, table, arch);
    assert forall|j: int| 0 <= j < open.len() implies !in_class(
        CharClass::Is('}'),
        #[trigger] open[j],
    ) by {
        if j >= 1 {
            assert(open[j] == inner[j - 1]);
            assert(inner.contains(inner[j - 1]));
        }
    }
    lemma_first_in_unique(open, CharClass::Is('}'), 0, open.len() as int);
    if !inner.contains(':') && has_no_index(inner) {
        lemma_indexless_head(inner, "}"@ + rest, n + 1);
        assert("{"@ + inner + ("}"@ + rest) =~= closed);
        assert forall|j: int| 0 <= j < n + 1 implies !in_class(
            CharClass::Is('}'),
            #[trigger] closed[j],
        ) by {
            if j >= 1 {
                assert(closed[j] == inner[j - 1]);
                assert(inner.contains(inner[j - 1]));
            }
        }
        assert(closed[n + 1] == '}');
        lemma_first_in_unique(closed, CharClass::Is('}'), 0, n + 1);
    }
}

proof fn lemma_indexless_head(inner: Seq<char>, tail: Seq<char>, end: int)
    requires
        end == inner.len() + 1,
        !inner.contains(':') && !inner.contains('}'),
        has_no_index(inner),
        tail.len() > 0,
        tail[0] == ':' || tail[0] == '}',
    ensures
        braced_head("{"@ + inner + tail).len() == end,
        braced_index("{"@ + inner + tail) is None,
        (forall|i: int| 0 <= i < inner.len() ==> !is_digit(#[trigger] inner[i])) ==> usize_of(
            reference_digits("{"@ + inner + tail),
        ) is None,
{
    reveal_strlit("{");
    let chunk = "{"@ + inner + tail;
    let class = CharClass::OneOf(':', '}', '}');
    assert(chunk[0] == '{');
    assert forall|j: int| 0 <= j < end implies !in_class(class, #[trigger] chunk[j]) by {
        if j >= 1 {
            assert(chunk[j] == inner[j - 1]);
            assert(inner.contains(inner[j - 1]));
        }
    }
    assert(chunk[end] == tail[0]);
    lemma_first_in_unique(chunk, class, 0, end);
    let head = braced_head(chunk);
    assert(head =~= "{"@ + inner);
    if forall|i: int| 0 <= i < inner.len() ==> !is_digit(#[trigger] inner[i]) {
        assert forall|j: int| 0 <= j < head.len() implies !in_class(
            CharClass::Digit,
            #[trigger] head[j],
        ) by {
            if j >= 1 {
                assert(head[j] == inner[j - 1]);
            }
        }
        lemma_first_in_unique(head, CharClass::Digit, 0, head.len() as int);
        assert(reference_digits(chunk).len() == 0);
    }
}

/// Modifiers without an index are refused, and so is a word that is no number.
pub proof fn law_references_need_an_index(
    p: Seq<char>,
    inner: Seq<char>,
    mods: Seq<char>,
    letter: Option<char>,
    word: Seq<char>,
    rest: Seq<char>,
    att: bool,
    table: TableView,
    arch: Arch,
)
    requires
        is_open_end(p),
        rewritten(p, att, table, arch) is Ok,
        !inner.contains('$') && !inner.contains('}') && !inner.contains(':'),
        has_no_index(inner),
        !mods.contains('$') && !mods.contains('}'),
        letter matches Some(c) ==> is_letter(c),
        letter is None ==> word.len() > 0 && is_digit(word[0]),
        forall|i: int| 0 <= i < word.len() ==> is_letter(#[trigger] word[i]) || is_digit(word[i]),
        usize_of(word) is None,
        !rest.contains('$'),
        rest.len() > 0 ==> !is_letter(rest[0]) && !is_digit(rest[0]),
    ensures
        ({
            let bad = Err::<Seq<char>, ErrorView>(generic_error("could not parse operand idx"@));
            let braced = "{"@ + inner + (":"@ + mods + "}"@ + rest);
            &&& rewritten(p + "$"@ + braced, att, table, arch) == bad
            &&& rewritten(p + "$"@ + (plain_form(letter, word) + rest), att, table, arch) == bad
        }),
{
    reveal_strlit("$");
    reveal_strlit("{");
    reveal_strlit("}");
    reveal_strlit(":");
    let tail = ":"@ + mods + "}"@ + rest;
    let braced = "{"@ + inner + tail;
    let n = inner.len() as int;
    let m = mods.len() as int;
    assert(p + "$"@ + braced =~= p.push('$') + braced);
    assert(tail[0] == ':');
    lemma_indexless_head(inner, tail, n + 1);
    assert(braced[0] == '{');
    assert(!braced.contains('$')) by {
        if braced.contains('$') {
            let j = choose|j: int| 0 <= j < braced.len() && braced[j] == '$';
            if 1 <= j <= n {
                assert(inner[j - 1] == '$');
                assert(inner.contains('$'));
            } else if n + 1 < j < n + 2 + m {
                assert(mods[j - n - 2] == '$');
                assert(mods.contains('$'));
            } else if j > n + 2 + m {
                assert(rest[j - n - 3 - m] == '$');
                assert(rest.contains('$'));
            }
        }
    }
    lemma_one_more_chunk(p, braced, att, table, arch);
    assert forall|j: int| 0 <= j < n + 2 + m implies !in_class(
        CharClass::Is('}'),
        #[trigger] braced[j],
    ) by {
        if 1 <= j <= n {
            assert(braced[j] == inner[j - 1]);
            assert(inner.contains(inner[j - 1]));
        } else if j > n + 1 {
            assert(braced[j] == mods[j - n - 2]);
            assert(mods.contains(mods[j - n - 2]));
        }
    }
    assert(braced[n + 2 + m] == '}');
    lemma_first_in_unique(braced, CharClass::Is('}'), 0, n + 2 + m);
    let form = plain_form(letter, word);
    let chunk = form + rest;
    let end = form.len() as int;
    let first: int = if letter is Some {
        1
    } else {
        0
    };
    assert(p + "$"@ + chunk =~= p.push('$') + chunk);
    assert forall|j: int| 0 <= j < end implies is_letter(#[trigger] chunk[j]) || is_digit(
        chunk[j],
    ) by {
        assert(chunk[j] == form[j]);
        if j >= first {
            assert(chunk[j] == word[j - first]);
        }
    }
    assert(end > 0 && is_letter(chunk[0]) == (letter is Some)) by {
        assert(chunk[0] == form[0]);
        if letter is None {
            assert(chunk[0] == word[0]);
        }
    }
    assert(!chunk.contains('$')) by {
        if chunk.contains('$') {
            let j = choose|j: int| 0 <= j < chunk.len() && chunk[j] == '$';
            if j >= end {
                assert(rest[j - end] == '$');
                assert(rest.contains('$'));
            } else {
                assert(is_letter(chunk[j]) || is_digit(chunk[j]));
            }
        }
    }
    lemma_one_more_chunk(p, chunk, att, table, arch);
    assert forall|j: int| 0 <= j < end implies !in_class(
        CharClass::NonAlnum,
        #[trigger] chunk[j],
    ) by {
        assert(is_letter(chunk[j]) || is_digit(chunk[j]));
    }
    if end < chunk.len() {
        assert(chunk[end] == rest[0]);
    }
    lemma_first_in_unique(chunk, CharClass::NonAlnum, 0, end);
    assert(chunk.subrange(first, end) =~= word);
}

/// A reference in braces to an index that no operand carries is refused like a
/// plain one.
pub proof fn law_dangling_braced_reference_is_refused(
    p: Seq<char>,
    digits: Seq<char>,
    mods: Option<Seq<char>>,
    rest: Seq<char>,
    idx: usize,
    att: bool,
    table: TableView,
    arch: Arch,
)
    requires
        is_open_end(p),
        rewritten(p, att, table, arch) is Ok,
        usize_of(digits) == Some(idx),
        mods matches Some(m) ==> !m.contains('}') && !m.contains('$'),
        !rest.contains('$'),
        forall|j: int|
            0 <= j < table.operands.len() ==> !(#[trigger] table.operands[j]).at_orig_idx(
                idx as int,
            ),
    ensures
        ({
            let whole = p + "$"@ + braced_form(digits, mods) + rest;
            rewritten(whole, att, table, arch) == Err::<Seq<char>, ErrorView>(
                generic_error(
                    "no operand had index "@ + decimal(idx as nat) + " in asm str:\n"@ + whole,
                ),
            )
        }),
{
    let form = braced_form(digits, mods);
    let chunk = form + rest;
    lemma_regroup(p, form, rest);
    lemma_braced_shape(digits, mods, rest);
    lemma_one_more_chunk(p, chunk, att, table, arch);
    lemma_position_of_orig(table.operands, idx as int, 0);
}

/// What is refused stays refused, whatever follows behind a `$`.
pub proof fn law_errors_stay(
    p: Seq<char>,
    chunk: Seq<char>,
    att: bool,
    table: TableView,
    arch: Arch,
)
    requires
        rewritten(p, att, table, arch) is Err,
        !chunk.contains('$'),
    ensures
        rewritten(p + "$"@ + chunk, att, table, arch) is Err,
{
    reveal_strlit("$");
    let whole = p.push('$') + chunk;
    assert(p + "$"@ + chunk =~= whole);
    let chunks = split(whole, '$');
    let front = split(p, '$');
    lemma_split_around(p, chunk, '$');
    lemma_split_without(chunk, '$');
    let n = front.len() as int;
    assert(chunks =~= front.push(chunk));
    assert forall|j: int| 0 <= j < n implies #[trigger] chunks[j] == front[j] by {}
    lemma_same_front(chunks, front, n, att, table, whole, p, arch);
    assert(rewritten_chunks(chunks, n, att, table, whole, arch) is Err);
}

/// The text can stand beside the index in braces: it holds no digit and nothing
/// that ends the index.
pub open spec fn is_beside_index(s: Seq<char>) -> bool {
    forall|i: int|
        0 <= i < s.len() ==> !is_digit(#[trigger] s[i]) && s[i] != ':' && s[i] != '}' && s[i]
            != '$'
}

proof fn lemma_index_in_braces(
    pre: Seq<char>,
    digits: Seq<char>,
    post: Seq<char>,
    tail: Seq<char>,
)
    requires
        is_beside_index(pre),
        is_beside_index(post),
        usize_of(digits) is Some,
        tail.len() > 0,
        tail[0] == ':' || tail[0] == '}',
        !tail.contains('$'),
    ensures
        ({
            let head = "{"@ + pre + digits + post;
            let chunk = head + tail;
            &&& chunk[0] == '{'
            &&& !chunk.contains('$')
            &&& braced_head(chunk) == head
            &&& trim_to(head, CharClass::Digit) == digits
            &&& reference_digits(chunk) == digits
            &&& forall|j: int| 0 <= j < head.len() ==> #[trigger] chunk[j] != '}'
        }),
{
    reveal_strlit("{");
    let head = "{"@ + pre + digits + post;
    let chunk = head + tail;
    let a = 1 + pre.len() as int;
    let b = a + digits.len() as int;
    let n = head.len() as int;
    let class = CharClass::OneOf(':', '}', '}');
    assert forall|j: int| 0 <= j < n implies #[trigger] chunk[j] == head[j] by {}
    assert forall|j: int| 0 <= j < n implies (is_digit(#[trigger] head[j]) <==> a <= j < b)
        && head[j] != ':' && head[j] != '}' && head[j] != '$' by {
        if 1 <= j < a {
            assert(head[j] == pre[j - 1]);
        } else if a <= j < b {
            assert(head[j] == digits[j - a]);
        } else if j >= b {
            assert(head[j] == post[j - b]);
        }
    }
    assert(!chunk.contains('$')) by {
        if chunk.contains('$') {
            let j = choose|j: int| 0 <= j < chunk.len() && chunk[j] == '$';
            if j < n {
                assert(head[j] != '$');
            } else {
                assert(tail[j - n] == '$');
                assert(tail.contains('$'));
            }
        }
    }
    assert forall|j: int| 0 <= j < n implies !in_class(class, #[trigger] chunk[j]) by {
        assert(head[j] != ':' && head[j] != '}');
    }
    assert(chunk[n] == tail[0]);
    lemma_first_in_unique(chunk, class, 0, n);
    assert(chunk.take(n) =~= head);
    let before = "{"@ + pre;
    assert forall|i: int| 0 <= i < before.len() implies !in_class(
        CharClass::Digit,
        #[trigger] before[i],
    ) by {
        assert(before[i] == head[i]);
    }
    assert forall|i: int| 0 <= i < post.len() implies !in_class(
        CharClass::Digit,
        #[trigger] post[i],
    ) by {}
    assert(is_digit(digits[0]) && is_digit(digits[digits.len() - 1]));
    law_trimming(before, digits, post, CharClass::Digit);
    assert forall|j: int| 0 <= j < a implies !in_class(CharClass::Digit, #[trigger] head[j]) by {}
    assert(is_digit(head[a]));
    lemma_first_in_unique(head, CharClass::Digit, 0, a);
    assert forall|j: int| a <= j < b implies !in_class(CharClass::NonDigit, #[trigger] head[j]) by {
        assert(is_digit(head[j]));
    }
    lemma_first_in_unique(head, CharClass::NonDigit, a, b);
    assert(head.subrange(a, b) =~= digits);
}

/// What stands beside the index in braces does not count: the reference is
/// replaced as if the index stood there alone.
pub proof fn law_only_the_index_counts_in_braces(
    p: Seq<char>,
    pre: Seq<char>,
    digits: Seq<char>,
    post: Seq<char>,
    mods: Option<Seq<char>>,
    rest: Seq<char>,
    idx: usize,
    k: int,
    att: bool,
    table: TableView,
    arch: Arch,
)
    requires
        is_open_end(p),
        rewritten(p, att, table, arch) is Ok,
        is_beside_index(pre),
        is_beside_index(post),
        usize_of(digits) == Some(idx),
        mods matches Some(m) ==> !m.contains('}') && !m.contains('$'),
        !rest.contains('$'),
        is_target(table, k, idx),
    ensures
        ({
            let tail = (match mods {
                Some(m) => ":"@ + m,
                None => Seq::empty(),
            }) + "}"@ + rest;
            let whole = p + "$"@ + ("{"@ + pre + digits + post + tail);
            let before = rewritten(p, att, table, arch)->Ok_0;
            let new_mods = match mods {
                Some(m) => ":"@ + translated_modifiers(m, arch),
                None => Seq::empty(),
            };
            &&& rewritten(whole, att, table, arch) == Ok::<Seq<char>, ErrorView>(
                before + ("{"@ + decimal(k as nat) + new_mods + ("}"@ + rest)),
            )
            &&& references(whole) == references(p).push(idx)
        }),
{
    let tail = mods_tail(mods, rest);
    let head = "{"@ + pre + digits + post;
    let chunk = head + tail;
    let whole = p + "$"@ + chunk;
    lemma_mods_tail(mods, rest);
    lemma_index_in_braces(pre, digits, post, tail);
    lemma_one_dollar(p, chunk);
    lemma_one_more_chunk(p, chunk, att, table, arch);
    lemma_target(table, k, idx, whole);
    lemma_tail_in_chunk(head, tail, mods_len(mods));
    assert(braced_reference(chunk, table, whole, arch) == Ok::<Seq<char>, ErrorView>(
        "{"@ + decimal(k as nat) + (match mods {
            Some(m) => ":"@ + translated_modifiers(m, arch),
            None => Seq::empty(),
        }) + ("}"@ + rest),
    ));
}

proof fn lemma_one_dollar(p: Seq<char>, chunk: Seq<char>)
    ensures
        p + "$"@ + chunk == p.push('$') + chunk,
{
    reveal_strlit("$");
    assert(p + "$"@ + chunk =~= p.push('$') + chunk);
}

spec fn mods_tail(mods: Option<Seq<char>>, rest: Seq<char>) -> Seq<char> {
    (match mods {
        Some(m) => ":"@ + m,
        None => Seq::empty(),
    }) + "}"@ + rest
}

spec fn mods_len(mods: Option<Seq<char>>) -> int {
    match mods {
        Some(m) => m.len() as int + 1,
        None => 0,
    }
}

proof fn lemma_mods_tail(mods: Option<Seq<char>>, rest: Seq<char>)
    requires
        mods matches Some(m) ==> !m.contains('}') && !m.contains('$'),
        !rest.contains('$'),
    ensures
        ({
            let tail = mods_tail(mods, rest);
            let m = mods_len(mods);
            &&& 0 <= m < tail.len()
            &&& tail[0] == ':' || tail[0] == '}'
            &&& !tail.contains('$')
            &&& tail[m] == '}'
            &&& forall|j: int| 0 <= j < m ==> #[trigger] tail[j] != '}'
            &&& tail.skip(m) == "}"@ + rest
            &&& mods matches Some(x) ==> tail.subrange(1, m) == x
        }),
{
    reveal_strlit("}");
    reveal_strlit(":");
    let tail = mods_tail(mods, rest);
    let m = mods_len(mods);
    assert forall|j: int| 0 <= j < m implies #[trigger] tail[j] != '}' && tail[j] != '$' by {
        if j > 0 {
            let x = mods.unwrap();
            assert(tail[j] == x[j - 1]);
            assert(x.contains(x[j - 1]));
        }
    }
    assert(!tail.contains('$')) by {
        if tail.contains('$') {
            let j = choose|j: int| 0 <= j < tail.len() && tail[j] == '$';
            if j > m {
                assert(rest[j - m - 1] == '$');
                assert(rest.contains('$'));
            }
        }
    }
    assert(tail.skip(m) =~= "}"@ + rest);
    if let Some(x) = mods {
        assert(tail.subrange(1, m) =~= x);
    }
}

proof fn lemma_tail_in_chunk(head: Seq<char>, tail: Seq<char>, m: int)
    requires
        0 <= m < tail.len(),
        tail[m] == '}',
        forall|j: int| 0 <= j < m ==> #[trigger] tail[j] != '}',
        forall|j: int| 0 <= j < head.len() ==> #[trigger] (head + tail)[j] != '}',
    ensures
        ({
            let chunk = head + tail;
            let n = head.len() as int;
            &&& first_in(chunk, CharClass::Is('}'), 0) == n + m
            &&& chunk.skip(n + m) == tail.skip(m)
            &&& m > 0 ==> chunk.subrange(n + 1, n + m) == tail.subrange(1, m)
        }),
{
    let chunk = head + tail;
    let n = head.len() as int;
    assert forall|j: int| 0 <= j < n + m implies !in_class(
        CharClass::Is('}'),
        #[trigger] chunk[j],
    ) by {
        if j >= n {
            assert(chunk[j] == tail[j - n]);
        }
    }
    assert(chunk[n + m] == '}');
    lemma_first_in_unique(chunk, CharClass::Is('}'), 0, n + m);
    assert(chunk.skip(n + m) =~= tail.skip(m));
    if m > 0 {
        assert(chunk.subrange(n + 1, n + m) =~= tail.subrange(1, m));
    }
}

/// A `$` at the very end goes.
pub proof fn law_last_dollar_is_dropped(
    p: Seq<char>,
    att: bool,
    table: TableView,
    arch: Arch,
)
    requires
        is_open_end(p),
        rewritten(p, att, table, arch) is Ok,
    ensures
        rewritten(p + "$"@, att, table, arch) == rewritten(p, att, table, arch),
        references(p + "$"@) == references(p),
{
    let none = Seq::<char>::empty();
    let before = rewritten(p, att, table, arch)->Ok_0;
    lemma_one_dollar(p, none);
    assert(p + "$"@ + none =~= p + "$"@);
    lemma_one_more_chunk(p, none, att, table, arch);
    assert(before + none =~= before);
}

} // verus!
