//! Which of the two x86 assembly syntaxes a template is written in.

use crate::text::{
    chars_of, contains_char, contains_text, copy_range, find, find_class, find_from, find_text,
    first_in, in_class, lemma_find_from, lemma_first_in, lemma_first_in_unique, occurs, occurs_at,
    push_range, string_of, CharClass,
};
use vstd::prelude::*;

verus! {

/// `s` from a position on without C comments: each from its `/*` to the next
/// `*/`, both included, or to the end of the text if there is none.
pub open spec fn without_c_comments(s: Seq<char>, from: int) -> Seq<char>
    decreases s.len() + 1 - from,
{
    proof {
        if from >= 0 {
            reveal_strlit("*/");
            lemma_find_from(s, "/*"@, from);
            if let Some(open) = find_from(s, "/*"@, from) {
                lemma_find_from(s, "*/"@, open + 2);
            }
        }
    }
    if from < 0 || from > s.len() {
        Seq::empty()
    } else {
        match find_from(s, "/*"@, from) {
            None => s.skip(from),
            Some(open) => match find_from(s, "*/"@, open + 2) {
                None => s.subrange(from, open),
                Some(close) => s.subrange(from, open) + without_c_comments(s, close + 2),
            },
        }
    }
}

/// The end of the line that starts at `from`: a line feed, and a carriage
/// return right before it, do not belong to the line.
pub open spec fn line_end(s: Seq<char>, from: int) -> int {
    let end = first_in(s, CharClass::Is('\n'), from);
    if end < s.len() && from < end && s[end - 1] == '\r' {
        end - 1
    } else {
        end
    }
}

/// `s` from a position on without `#` comments: each line up to its first `#`,
/// if it has one, and a line feed.
pub open spec fn without_line_comments(s: Seq<char>, from: int) -> Seq<char>
    decreases s.len() + 1 - from,
{
    proof {
        if 0 <= from < s.len() {
            lemma_first_in(s, CharClass::Is('\n'), from);
        }
    }
    if from < 0 || from >= s.len() {
        Seq::empty()
    } else {
        let line = s.subrange(from, line_end(s, from));
        let kept = line.take(first_in(line, CharClass::Is('#'), 0));
        kept.push('\n') + without_line_comments(s, first_in(s, CharClass::Is('\n'), from) + 1)
    }
}

/// An assembly text without its comments.
pub open spec fn comments_removed(template: Seq<char>) -> Seq<char> {
    without_line_comments(without_c_comments(template, 0), 0)
}

fn remove_c_comments(template: &[char]) -> (res: Vec<char>)
    ensures
        res@ == without_c_comments(template@, 0),
{
    let mut out: Vec<char> = Vec::new();
    let len = template.len();
    let mut from: usize = 0;
    loop
        invariant
            len == template@.len(),
            from <= template@.len(),
            without_c_comments(template@, 0) == out@ + without_c_comments(template@, from as int),
        decreases template@.len() - from,
    {
        proof {
            lemma_find_from(template@, "/*"@, from as int);
        }
        match find_text(template, "/*", from) {
            None => {
                push_range(&mut out, template, from, template.len());
                assert(template@.subrange(from as int, template@.len() as int) == template@.skip(from as int));
                return out;
            },
            Some(open) => {
                proof {
                    reveal_strlit("/*");
                    reveal_strlit("*/");
                    lemma_find_from(template@, "*/"@, open + 2);
                    assert("/*"@.len() == 2);
                    assert("*/"@.len() == 2);
                    assert(open + 2 <= template@.len());
                }
                push_range(&mut out, template, from, open);
                match find_text(template, "*/", open + 2) {
                    // Comments with no terminator extend to the end of the text.
                    None => {
                        return out;
                    },
                    Some(close) => {
                        from = close + 2;
                    },
                }
            },
        }
    }
}

fn remove_line_comments(template: &[char]) -> (res: Vec<char>)
    ensures
        res@ == without_line_comments(template@, 0),
{
    let mut out: Vec<char> = Vec::new();
    let mut from: usize = 0;
    while from < template.len()
        invariant
            from <= template@.len(),
            without_line_comments(template@, 0) == out@ + without_line_comments(template@, from as int),
        decreases template@.len() - from,
    {
        let feed = find_class(template, CharClass::Is('\n'), from);
        let mut end: usize = feed;
        if feed < template.len() && from < feed && template[feed - 1] == '\r' {
            end = feed - 1;
        }
        let line = copy_range(template, from, end);
        let hash = find_class(line.as_slice(), CharClass::Is('#'), 0);
        let ghost before = out@;
        push_range(&mut out, line.as_slice(), 0, hash);
        out.push('\n');
        proof {
            let kept = line@.take(hash as int);
            assert(line@.subrange(0, hash as int) == kept);
            assert(out@ == before + kept.push('\n'));
            assert(without_line_comments(template@, from as int) == kept.push('\n')
                + without_line_comments(template@, feed + 1));
            assert(without_line_comments(template@, 0) == out@ + without_line_comments(
                template@,
                feed + 1,
            ));
            assert(feed == template@.len() ==> without_line_comments(template@, feed + 1)
                == without_line_comments(template@, feed as int));
        }
        from = if feed < template.len() {
            feed + 1
        } else {
            feed
        };
    }
    assert(without_line_comments(template@, from as int) == Seq::<char>::empty());
    assert(out@ == without_line_comments(template@, 0));
    out
}

/// Remove comments from an x86 assembly template. Used only to provide a less-
/// confounding input to our Intel-vs-AT&T detection in [`asm_is_att_syntax`].
pub fn remove_comments(template: &str) -> (res: String)
    ensures
        res@ == comments_removed(template@),
{
    let all = chars_of(template);
    let without_c = remove_c_comments(all.as_slice());
    let without_any = remove_line_comments(without_c.as_slice());
    string_of(without_any.as_slice())
}

/// The template is in AT&T syntax. A syntax directive outside comments decides,
/// the first one if there are several. Without one, `word ptr` speaks for
/// Intel; `$$`, `%` and `(` for AT&T; `[` for Intel; and nothing of all that
/// for AT&T, the default of gcc.
pub open spec fn is_att(template: Seq<char>) -> bool {
    let code = comments_removed(template);
    match (find(code, ".intel_syntax"@), find(code, ".att_syntax"@)) {
        (Some(intel), Some(att)) => att < intel,
        (Some(_), None) => false,
        (None, Some(_)) => true,
        (None, None) => !occurs(code, "word ptr"@) && (occurs(code, "$$"@) || code.contains('%')
            || code.contains('(') || !code.contains('[')),
    }
}

/// Detect whether an x86(_64) extended asm template string uses AT&T syntax (vs. Intel).
/// For gcc, AT&T syntax is default... unless `-masm=intel` is passed. This
/// means we can hope but not guarantee that x86 asm with no syntax directive
/// uses AT&T syntax.
/// To handle other cases, try to heuristically detect the variant we get
/// (assuming it's actually x86 asm in the first place...).
/// As the rust x86 default is intel syntax, we need to emit the "att_syntax"
/// option if we get a hint that this asm uses AT&T syntax.
///
/// Note that this function receives the asm template after Clang's translation
/// from gcc syntax (with `%` for substitution/escapes) to LLVM syntax which
/// uses `$` for substitution/escapes. See:
/// <https://llvm.org/docs/LangRef.html#inline-assembler-expressions>
pub fn asm_is_att_syntax(template: &str) -> (res: bool)
    ensures
        res == is_att(template@),
{
    let text = remove_comments(template);
    let code_chars = chars_of(text.as_str());
    let code = code_chars.as_slice();
    let intel_directive = find_text(code, ".intel_syntax", 0);
    let att_directive = find_text(code, ".att_syntax", 0);
    match (intel_directive, att_directive) {
        (Some(intel_pos), Some(att_pos)) => att_pos < intel_pos,
        (Some(_), None) => false,
        (None, Some(_)) => true,
        (None, None) => {
            if contains_text(code, "word ptr") {
                false
            } else if contains_text(code, "$$") || contains_char(code, '%') || contains_char(
                code,
                '(',
            ) {
                true
            } else {
                !contains_char(code, '[')
            }
        },
    }
}

proof fn lemma_no_hash_left(s: Seq<char>, from: int)
    requires
        0 <= from <= s.len(),
    ensures
        !without_line_comments(s, from).contains('#'),
    decreases s.len() - from,
{
    if from < s.len() {
        lemma_first_in(s, CharClass::Is('\n'), from);
        let feed = first_in(s, CharClass::Is('\n'), from);
        let line = s.subrange(from, line_end(s, from));
        lemma_first_in(line, CharClass::Is('#'), 0);
        let kept = line.take(first_in(line, CharClass::Is('#'), 0));
        let rest = without_line_comments(s, feed + 1);
        assert(!kept.push('\n').contains('#')) by {
            assert forall|i: int| 0 <= i < kept.push('\n').len() implies kept.push('\n')[i]
                != '#' by {
                if i < kept.len() {
                    assert(kept[i] == line[i]);
                    assert(!crate::text::in_class(CharClass::Is('#'), line[i]));
                }
            }
        }
        if feed < s.len() {
            lemma_no_hash_left(s, feed + 1);
        }
        let whole = kept.push('\n') + rest;
        assert forall|i: int| 0 <= i < whole.len() implies whole[i] != '#' by {
            if i < kept.len() + 1 {
                assert(whole[i] == kept.push('\n')[i]);
            } else {
                assert(whole[i] == rest[i - kept.len() - 1]);
            }
        }
    }
}

/// No line comment is left when comments are removed.
pub proof fn law_no_line_comment_left(template: Seq<char>)
    ensures
        !comments_removed(template).contains('#'),
{
    lemma_no_hash_left(without_c_comments(template, 0), 0);
}

proof fn lemma_found_behind(a: Seq<char>, b: Seq<char>, pat: Seq<char>, from: int)
    requires
        0 <= from <= b.len(),
    ensures
        find_from(a + b, pat, a.len() + from) == match find_from(b, pat, from) {
            Some(i) => Some(a.len() + i),
            None => None,
        },
    decreases b.len() - from,
{
    let n = a.len() as int;
    if n + from + pat.len() <= n + b.len() {
        assert((a + b).subrange(n + from, n + from + pat.len()) =~= b.subrange(
            from,
            from + pat.len(),
        ));
    }
    assert(occurs_at(a + b, pat, n + from) == occurs_at(b, pat, from));
    if !occurs_at(b, pat, from) {
        if from < b.len() {
            lemma_found_behind(a, b, pat, from + 1);
        } else {
            assert(find_from(a + b, pat, n + from + 1) is None);
            assert(find_from(b, pat, from + 1) is None);
        }
    }
}

proof fn lemma_first_found(s: Seq<char>, pat: Seq<char>, from: int, at: int)
    requires
        0 <= from <= at,
        occurs_at(s, pat, at),
        forall|j: int| from <= j < at ==> !#[trigger] occurs_at(s, pat, j),
    ensures
        find_from(s, pat, from) == Some(at),
    decreases at - from,
{
    if from < at {
        assert(!occurs_at(s, pat, from));
        lemma_first_found(s, pat, from + 1, at);
    }
}

proof fn lemma_c_comments_behind(a: Seq<char>, b: Seq<char>, from: int)
    requires
        0 <= from <= b.len(),
    ensures
        without_c_comments(a + b, a.len() + from) == without_c_comments(b, from),
    decreases b.len() - from,
{
    reveal_strlit("/*");
    reveal_strlit("*/");
    let n = a.len() as int;
    let whole = a + b;
    lemma_found_behind(a, b, "/*"@, from);
    lemma_find_from(b, "/*"@, from);
    assert(whole.skip(n + from) =~= b.skip(from));
    if let Some(open) = find_from(b, "/*"@, from) {
        assert(open + 2 <= b.len());
        lemma_found_behind(a, b, "*/"@, open + 2);
        lemma_find_from(b, "*/"@, open + 2);
        assert(whole.subrange(n + from, n + open) =~= b.subrange(from, open));
        if let Some(close) = find_from(b, "*/"@, open + 2) {
            assert(close + 2 <= b.len());
            lemma_c_comments_behind(a, b, close + 2);
        }
    }
}

/// The first mark of its kind behind a text that holds none.
proof fn lemma_mark_found(a: Seq<char>, mark: Seq<char>, b: Seq<char>)
    requires
        !occurs(a, mark),
        mark.len() == 2,
        mark[0] != mark[1],
    ensures
        find_from(a + mark + b, mark, 0) == Some(a.len() as int),
{
    let whole = a + mark + b;
    let n = a.len() as int;
    assert(whole.subrange(n, n + 2) =~= mark);
    assert forall|j: int| 0 <= j < n implies !#[trigger] occurs_at(whole, mark, j) by {
        if occurs_at(whole, mark, j) {
            assert(whole.subrange(j, j + 2)[0] == mark[0]);
            assert(whole.subrange(j, j + 2)[1] == mark[1]);
            if j + 2 <= n {
                assert(a.subrange(j, j + 2) =~= whole.subrange(j, j + 2));
                assert(occurs_at(a, mark, j));
            } else {
                assert(whole[j + 1] == mark[0]);
            }
        }
    }
    lemma_first_found(whole, mark, 0, n);
}

/// A C comment goes with its marks, and all before and behind it stays. One that
/// is never closed goes up to the end.
pub proof fn law_c_comments_are_removed(a: Seq<char>, comment: Seq<char>, b: Seq<char>)
    requires
        !occurs(a, "/*"@),
        !occurs(comment, "*/"@),
    ensures
        without_c_comments(a + ("/*"@ + comment + "*/"@) + b, 0) == a + without_c_comments(b, 0),
        without_c_comments(a + ("/*"@ + comment), 0) == a,
        without_c_comments(a, 0) == a,
{
    reveal_strlit("/*");
    reveal_strlit("*/");
    let n = a.len() as int;
    let m = comment.len() as int;
    lemma_find_from(a, "/*"@, 0);
    assert(a.skip(0) =~= a);
    assert(find_from(a, "/*"@, 0) is None);
    let closed = a + ("/*"@ + comment + "*/"@) + b;
    let head = a + "/*"@;
    let tail = "*/"@ + b;
    assert(closed =~= a + "/*"@ + (comment + "*/"@ + b));
    lemma_mark_found(a, "/*"@, comment + "*/"@ + b);
    lemma_mark_found(comment, "*/"@, b);
    lemma_found_behind(head, comment + "*/"@ + b, "*/"@, 0);
    assert(closed =~= head + (comment + "*/"@ + b));
    assert(find_from(closed, "*/"@, n + 2) == Some(n + 2 + m));
    assert(closed =~= (head + comment + "*/"@) + b);
    lemma_c_comments_behind(head + comment + "*/"@, b, 0);
    assert(closed.subrange(0, n) =~= a);
    let open = a + ("/*"@ + comment);
    assert(open =~= a + "/*"@ + comment);
    lemma_mark_found(a, "/*"@, comment);
    lemma_found_behind(head, comment, "*/"@, 0);
    lemma_find_from(comment, "*/"@, 0);
    assert(find_from(comment, "*/"@, 0) is None);
    assert(open =~= head + comment);
    assert(open.subrange(0, n) =~= a);
}

proof fn lemma_line_comments_behind(a: Seq<char>, b: Seq<char>, from: int)
    requires
        0 <= from <= b.len(),
    ensures
        without_line_comments(a + b, a.len() + from) == without_line_comments(b, from),
    decreases b.len() - from,
{
    if from < b.len() {
        let n = a.len() as int;
        let whole = a + b;
        let feed = first_in(b, CharClass::Is('\n'), from);
        lemma_first_in(b, CharClass::Is('\n'), from);
        assert forall|j: int| n + from <= j < n + feed implies !in_class(
            CharClass::Is('\n'),
            #[trigger] whole[j],
        ) by {
            assert(whole[j] == b[j - n]);
        }
        if feed < b.len() {
            assert(whole[n + feed] == b[feed]);
        }
        lemma_first_in_unique(whole, CharClass::Is('\n'), n + from, n + feed);
        if from < feed {
            assert(whole[n + feed - 1] == b[feed - 1]);
        }
        assert(line_end(whole, n + from) == n + line_end(b, from));
        assert(whole.subrange(n + from, n + line_end(b, from)) =~= b.subrange(
            from,
            line_end(b, from),
        ));
        if feed < b.len() {
            lemma_line_comments_behind(a, b, feed + 1);
        } else {
            assert(without_line_comments(whole, n + feed + 1) =~= Seq::empty());
            assert(without_line_comments(b, feed + 1) =~= Seq::empty());
        }
    }
}

/// A line keeps what stands before its first `#`, without a carriage return at
/// its end, and every line ends with a line feed. What follows is on its own.
pub proof fn law_line_comments_are_removed(code: Seq<char>, tail: Seq<char>, rest: Seq<char>)
    requires
        !code.contains('\n') && !code.contains('#'),
        code.len() > 0 && tail.len() == 0 ==> code.last() != '\r',
        !tail.contains('\n'),
        tail.len() == 0 || tail[0] == '#' || tail == seq!['\r'],
    ensures
        without_line_comments((code + tail).push('\n') + rest, 0) == code.push('\n')
            + without_line_comments(rest, 0),
        code.len() + tail.len() > 0 && tail != seq!['\r'] ==> without_line_comments(code + tail, 0)
            == code.push('\n'),
        without_line_comments(Seq::empty(), 0) == Seq::<char>::empty(),
{
    let line = code + tail;
    let n = line.len() as int;
    let whole = line.push('\n') + rest;
    assert forall|j: int| 0 <= j < n implies #[trigger] line[j] != '\n' by {
        if j < code.len() {
            assert(code[j] != '\n') by {
                if code[j] == '\n' {
                    assert(code.contains('\n'));
                }
            }
        } else {
            assert(line[j] == tail[j - code.len()]);
            if tail[j - code.len()] == '\n' {
                assert(tail.contains('\n'));
            }
        }
    }
    assert forall|j: int| 0 <= j < n implies !in_class(
        CharClass::Is('\n'),
        #[trigger] whole[j],
    ) by {
        assert(whole[j] == line[j]);
    }
    assert(whole[n] == '\n');
    lemma_first_in_unique(whole, CharClass::Is('\n'), 0, n);
    assert(n > 0 ==> whole[n - 1] == line[n - 1]);
    let kept = whole.subrange(0, line_end(whole, 0));
    lemma_hash(code, kept);
    lemma_line_comments_behind(line.push('\n'), rest, 0);
    assert(without_line_comments(whole, 0) == code.push('\n') + without_line_comments(rest, 0));
    if n > 0 && tail != seq!['\r'] {
        assert forall|j: int| 0 <= j < n implies !in_class(
            CharClass::Is('\n'),
            #[trigger] line[j],
        ) by {}
        lemma_first_in_unique(line, CharClass::Is('\n'), 0, n);
        assert(line_end(line, 0) == n);
        let last = line.subrange(0, n);
        assert(last =~= line);
        lemma_hash(code, last);
        assert(without_line_comments(line, n + 1) =~= Seq::empty());
        assert(without_line_comments(line, 0) =~= code.push('\n'));
    }
}

/// Up to the first `#`, or to the end, there is the code.
proof fn lemma_hash(code: Seq<char>, line: Seq<char>)
    requires
        code.is_prefix_of(line),
        !code.contains('#'),
        line.len() > code.len() ==> line[code.len() as int] == '#',
    ensures
        line.take(first_in(line, CharClass::Is('#'), 0)) == code,
{
    let n = code.len() as int;
    assert forall|j: int| 0 <= j < n implies !in_class(CharClass::Is('#'), #[trigger] line[j]) by {
        assert(line.subrange(0, n)[j] == code[j]);
        if code[j] == '#' {
            assert(code.contains('#'));
        }
    }
    lemma_first_in_unique(line, CharClass::Is('#'), 0, n);
    assert(line.take(n) =~= code);
}

/// Comments in C style go first, so that a `#` in one of them hides nothing.
pub proof fn law_c_comments_go_first(a: Seq<char>, comment: Seq<char>, b: Seq<char>)
    requires
        !occurs(a, "/*"@),
        !occurs(comment, "*/"@),
        !occurs(b, "/*"@),
    ensures
        comments_removed(a + ("/*"@ + comment + "*/"@) + b) == without_line_comments(a + b, 0),
        comments_removed(a) == without_line_comments(a, 0),
{
    law_c_comments_are_removed(a, comment, b);
    law_c_comments_are_removed(b, comment, a);
}

/// The code holds the first text at a place with no second text at or before it.
pub open spec fn comes_first(code: Seq<char>, first: Seq<char>, second: Seq<char>) -> bool {
    exists|i: int| #[trigger]
        occurs_at(code, first, i) && forall|j: int|
            j <= i ==> !#[trigger] occurs_at(code, second, j)
}

/// The first directive outside comments decides on the syntax. Without one, it is
/// Intel syntax if there is a `word ptr`, or a `[` and nothing that only AT&T
/// syntax has, and AT&T syntax in all other cases.
pub proof fn law_syntax_is_recognised(template: Seq<char>)
    ensures
        ({
            let code = comments_removed(template);
            let has_att = occurs(code, ".att_syntax"@);
            let has_intel = occurs(code, ".intel_syntax"@);
            &&& has_att && !has_intel ==> is_att(template)
            &&& has_intel && !has_att ==> !is_att(template)
            &&& comes_first(code, ".att_syntax"@, ".intel_syntax"@) ==> is_att(template)
            &&& comes_first(code, ".intel_syntax"@, ".att_syntax"@) ==> !is_att(template)
            &&& !has_att && !has_intel && occurs(code, "word ptr"@) ==> !is_att(template)
            &&& !has_att && !has_intel && !occurs(code, "word ptr"@) && (occurs(code, "$$"@)
                || code.contains('%') || code.contains('(')) ==> is_att(template)
            &&& !has_att && !has_intel && !occurs(code, "word ptr"@) && !occurs(code, "$$"@)
                && !code.contains('%') && !code.contains('(') ==> (is_att(template)
                <==> !code.contains('['))
        }),
{
    let code = comments_removed(template);
    let att = ".att_syntax"@;
    let intel = ".intel_syntax"@;
    lemma_find_from(code, att, 0);
    lemma_find_from(code, intel, 0);
    if occurs(code, att) {
        let i = choose|i: int| occurs_at(code, att, i);
        assert(find(code, att) is Some);
    }
    if occurs(code, intel) {
        let i = choose|i: int| occurs_at(code, intel, i);
        assert(find(code, intel) is Some);
    }
    if comes_first(code, att, intel) {
        let i = choose|i: int| #[trigger]
            occurs_at(code, att, i) && forall|j: int|
                j <= i ==> !#[trigger] occurs_at(code, intel, j);
        assert(find(code, att).unwrap() <= i);
        if let Some(k) = find(code, intel) {
            assert(occurs_at(code, intel, k));
        }
    }
    if comes_first(code, intel, att) {
        let i = choose|i: int| #[trigger]
            occurs_at(code, intel, i) && forall|j: int|
                j <= i ==> !#[trigger] occurs_at(code, att, j);
        assert(find(code, intel).unwrap() <= i);
        if let Some(k) = find(code, att) {
            assert(occurs_at(code, att, k));
        }
    }
}

} // verus!
