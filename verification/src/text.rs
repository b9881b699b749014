//! Text as sequences of characters: searching, splitting, trimming, decimal
//! numerals, and the two questions that only the Unicode tables answer.

use vstd::prelude::*;

verus! {

/// `String::push` appends one character.
pub assume_specification[ String::push ](s: &mut String, c: char)
    ensures
        final(s)@ == old(s)@.push(c),
;

/// The answer of `char::is_alphanumeric` outside ASCII, which the Unicode
/// tables give.
pub uninterp spec fn unicode_alphanumeric(c: char) -> bool;

/// The answer of `char::is_whitespace` outside ASCII, which the Unicode tables
/// give.
pub uninterp spec fn unicode_whitespace(c: char) -> bool;

/// Calls `char::is_alphanumeric`. The contract names its answer outside ASCII,
/// and says what the documentation fixes for ASCII: letters and digits.
#[verifier::external_body]
pub(crate) fn char_is_alphanumeric(c: char) -> (res: bool)
    ensures
        c > '\x7f' ==> res == unicode_alphanumeric(c),
        c <= '\x7f' ==> res == (is_letter(c) || is_digit(c)),
{
    c.is_alphanumeric()
}

/// Calls `char::is_whitespace`. The contract names its answer outside ASCII,
/// and says what the White_Space property holds of ASCII: the space and the
/// controls from tab to carriage return.
#[verifier::external_body]
pub(crate) fn char_is_whitespace(c: char) -> (res: bool)
    ensures
        c > '\x7f' ==> res == unicode_whitespace(c),
        c <= '\x7f' ==> res == (c == ' ' || ('\t' <= c && c <= '\r')),
{
    c.is_whitespace()
}

/// A letter or a number.
pub open spec fn is_alphanumeric(c: char) -> bool {
    if c <= '\x7f' {
        is_letter(c) || is_digit(c)
    } else {
        unicode_alphanumeric(c)
    }
}

/// Whitespace.
pub open spec fn is_whitespace(c: char) -> bool {
    if c <= '\x7f' {
        c == ' ' || ('\t' <= c && c <= '\r')
    } else {
        unicode_whitespace(c)
    }
}

/// An ASCII decimal digit.
pub open spec fn is_digit(c: char) -> bool {
    '0' <= c && c <= '9'
}

/// An ASCII letter.
pub open spec fn is_letter(c: char) -> bool {
    ('a' <= c && c <= 'z') || ('A' <= c && c <= 'Z')
}

/// Whether `c` is an ASCII letter.
pub fn char_is_letter(c: char) -> (res: bool)
    ensures
        res == is_letter(c),
{
    ('a' <= c && c <= 'z') || ('A' <= c && c <= 'Z')
}

/// Whether `c` is an ASCII decimal digit.
pub fn char_is_digit(c: char) -> (res: bool)
    ensures
        res == is_digit(c),
{
    '0' <= c && c <= '9'
}

/// A set of characters to search for.
#[derive(Clone, Copy)]
pub enum CharClass {
    /// The one character given.
    Is(char),
    /// Anything but the character given.
    IsNot(char),
    /// One of the three characters given.
    OneOf(char, char, char),
    /// An ASCII digit.
    Digit,
    /// Anything but an ASCII digit.
    NonDigit,
    /// Anything but an ASCII letter or digit.
    NonAlnum,
    /// Anything but Unicode whitespace.
    NonSpace,
}

/// Membership in a [`CharClass`].
pub open spec fn in_class(class: CharClass, c: char) -> bool {
    match class {
        CharClass::Is(x) => c == x,
        CharClass::IsNot(x) => c != x,
        CharClass::OneOf(x, y, z) => c == x || c == y || c == z,
        CharClass::Digit => is_digit(c),
        CharClass::NonDigit => !is_digit(c),
        CharClass::NonAlnum => !is_letter(c) && !is_digit(c),
        CharClass::NonSpace => !is_whitespace(c),
    }
}

/// Whether `c` belongs to `class`.
pub fn char_in_class(class: CharClass, c: char) -> (res: bool)
    ensures
        res == in_class(class, c),
{
    match class {
        CharClass::Is(x) => c == x,
        CharClass::IsNot(x) => c != x,
        CharClass::OneOf(x, y, z) => c == x || c == y || c == z,
        CharClass::Digit => char_is_digit(c),
        CharClass::NonDigit => !char_is_digit(c),
        CharClass::NonAlnum => !char_is_letter(c) && !char_is_digit(c),
        CharClass::NonSpace => !char_is_whitespace(c),
    }
}

/// The first position at or after `from` that holds a character of `class`,
/// or the length of `s` if there is none.
pub open spec fn first_in(s: Seq<char>, class: CharClass, from: int) -> int
    decreases s.len() - from,
{
    if from < 0 || from >= s.len() {
        s.len() as int
    } else if in_class(class, s[from]) {
        from
    } else {
        first_in(s, class, from + 1)
    }
}

/// What [`first_in`] means: nothing of the class before it, a member at it.
pub proof fn lemma_first_in(s: Seq<char>, class: CharClass, from: int)
    requires
        0 <= from <= s.len(),
    ensures
        from <= first_in(s, class, from) <= s.len(),
        forall|j: int|
            from <= j < first_in(s, class, from) ==> !in_class(class, #[trigger] s[j]),
        first_in(s, class, from) < s.len() ==> in_class(class, s[first_in(s, class, from)]),
    decreases s.len() - from,
{
    if from < s.len() && !in_class(class, s[from]) {
        lemma_first_in(s, class, from + 1);
    }
}

/// A position with those properties is the first one.
pub proof fn lemma_first_in_unique(s: Seq<char>, class: CharClass, from: int, k: int)
    requires
        0 <= from <= k <= s.len(),
        forall|j: int| from <= j < k ==> !in_class(class, #[trigger] s[j]),
        k < s.len() ==> in_class(class, s[k]),
    ensures
        first_in(s, class, from) == k,
    decreases s.len() - from,
{
    if from < k {
        assert(!in_class(class, s[from]));
        lemma_first_in_unique(s, class, from + 1, k);
    }
}

/// Finds the first character of `class` at or after `from`.
pub fn find_class(s: &[char], class: CharClass, from: usize) -> (res: usize)
    requires
        from <= s@.len(),
    ensures
        res == first_in(s@, class, from as int),
        from <= res <= s@.len(),
{
    let mut i: usize = from;
    while i < s.len()
        invariant
            from <= i <= s@.len(),
            first_in(s@, class, from as int) == first_in(s@, class, i as int),
        decreases s@.len() - i,
    {
        if char_in_class(class, s[i]) {
            return i;
        }
        i += 1;
    }
    i
}

/// The position just behind the last character of `class` among the first
/// `upto`, or 0 if there is none.
pub open spec fn end_of_last(s: Seq<char>, class: CharClass, upto: int) -> int
    decreases upto,
{
    if upto <= 0 {
        0
    } else if in_class(class, s[upto - 1]) {
        upto
    } else {
        end_of_last(s, class, upto - 1)
    }
}

/// `s` without what stands before the first and behind the last character of
/// `class`; empty if no character belongs to it.
pub open spec fn trim_to(s: Seq<char>, class: CharClass) -> Seq<char> {
    let start = first_in(s, class, 0);
    let end = end_of_last(s, class, s.len() as int);
    if start < end {
        s.subrange(start, end)
    } else {
        Seq::empty()
    }
}

/// Trims `s` down to the characters of `class` and what lies between them.
pub fn trim_to_class(s: &[char], class: CharClass) -> (res: Vec<char>)
    ensures
        res@ == trim_to(s@, class),
{
    let start = find_class(s, class, 0);
    let mut end: usize = s.len();
    while end > 0
        invariant_except_break
            end_of_last(s@, class, s@.len() as int) == end_of_last(s@, class, end as int),
        invariant
            end <= s@.len(),
        ensures
            end == end_of_last(s@, class, s@.len() as int),
        decreases end,
    {
        if char_in_class(class, s[end - 1]) {
            break;
        }
        end -= 1;
    }
    if start < end {
        copy_range(s, start, end)
    } else {
        Vec::new()
    }
}

/// The characters of `s`.
pub fn chars_of(s: &str) -> (res: Vec<char>)
    ensures
        res@ == s@,
{
    let mut out: Vec<char> = Vec::new();
    for c in it: s.chars()
        invariant
            it.seq() == s@,
            out@ == s@.take(it.index() as int),
    {
        out.push(c);
    }
    assert(s@.take(s@.len() as int) == s@);
    out
}

/// The string with the given characters.
pub fn string_of(s: &[char]) -> (res: String)
    ensures
        res@ == s@,
{
    let mut out = String::new();
    let mut i: usize = 0;
    while i < s.len()
        invariant
            i <= s@.len(),
            out@ == s@.take(i as int),
        decreases s@.len() - i,
    {
        out.push(s[i]);
        i += 1;
    }
    assert(s@.take(s@.len() as int) == s@);
    out
}

/// Appends the characters of `s` from `start` up to `end`.
pub fn push_range(out: &mut Vec<char>, s: &[char], start: usize, end: usize)
    requires
        start <= end <= s@.len(),
    ensures
        final(out)@ == old(out)@ + s@.subrange(start as int, end as int),
{
    let mut i: usize = start;
    while i < end
        invariant
            start <= i <= end <= s@.len(),
            out@ == old(out)@ + s@.subrange(start as int, i as int),
        decreases end - i,
    {
        out.push(s[i]);
        i += 1;
        assert(s@.subrange(start as int, i as int) == s@.subrange(start as int, i - 1).push(
            s@[i - 1],
        ));
    }
}

/// Appends all of `s`.
pub fn push_all(out: &mut Vec<char>, s: &[char])
    ensures
        final(out)@ == old(out)@ + s@,
{
    push_range(out, s, 0, s.len());
    assert(s@.subrange(0, s@.len() as int) == s@);
}

/// Appends the characters of a string.
pub fn push_text(out: &mut Vec<char>, s: &str)
    ensures
        final(out)@ == old(out)@ + s@,
{
    let cs = chars_of(s);
    push_all(out, cs.as_slice());
}

/// The characters of `s` from `start` up to `end`.
pub fn copy_range(s: &[char], start: usize, end: usize) -> (res: Vec<char>)
    requires
        start <= end <= s@.len(),
    ensures
        res@ == s@.subrange(start as int, end as int),
{
    let mut out: Vec<char> = Vec::new();
    push_range(&mut out, s, start, end);
    assert(out@ == s@.subrange(start as int, end as int));
    out
}

/// Whether two texts are the same.
pub fn same_chars(a: &[char], b: &[char]) -> (res: bool)
    ensures
        res == (a@ == b@),
{
    if a.len() != b.len() {
        return false;
    }
    let mut i: usize = 0;
    while i < a.len()
        invariant
            i <= a@.len(),
            a@.len() == b@.len(),
            forall|j: int| 0 <= j < i ==> a@[j] == b@[j],
        decreases a@.len() - i,
    {
        if a[i] != b[i] {
            assert(a@[i as int] != b@[i as int]);
            return false;
        }
        i += 1;
    }
    assert(a@ == b@);
    true
}

/// Whether the text is the given string.
pub fn is_text(a: &[char], b: &str) -> (res: bool)
    ensures
        res == (a@ == b@),
{
    let cs = chars_of(b);
    same_chars(a, cs.as_slice())
}

/// Whether two strings are the same.
pub fn same_text(a: &str, b: &str) -> (res: bool)
    ensures
        res == (a@ == b@),
{
    let cs = chars_of(a);
    is_text(cs.as_slice(), b)
}

/// `pat` stands in `s` at position `i`.
pub open spec fn occurs_at(s: Seq<char>, pat: Seq<char>, i: int) -> bool {
    &&& 0 <= i
    &&& i + pat.len() <= s.len()
    &&& s.subrange(i, i + pat.len()) == pat
}

/// `pat` stands somewhere in `s`.
pub open spec fn occurs(s: Seq<char>, pat: Seq<char>) -> bool {
    exists|i: int| occurs_at(s, pat, i)
}

/// The first position at or after `from` where `pat` stands in `s`.
pub open spec fn find_from(s: Seq<char>, pat: Seq<char>, from: int) -> Option<int>
    decreases s.len() + 1 - from,
{
    if from < 0 || from > s.len() {
        None
    } else if occurs_at(s, pat, from) {
        Some(from)
    } else {
        find_from(s, pat, from + 1)
    }
}

/// The first position where `pat` stands in `s`.
pub open spec fn find(s: Seq<char>, pat: Seq<char>) -> Option<int> {
    find_from(s, pat, 0)
}

/// What [`find_from`] means: the least position at or after `from` with an
/// occurrence, and `None` only if there is no such position.
pub proof fn lemma_find_from(s: Seq<char>, pat: Seq<char>, from: int)
    requires
        0 <= from,
    ensures
        match find_from(s, pat, from) {
            Some(i) => {
                &&& from <= i
                &&& occurs_at(s, pat, i)
                &&& forall|j: int| from <= j < i ==> !occurs_at(s, pat, j)
            },
            None => forall|j: int| from <= j ==> !occurs_at(s, pat, j),
        },
    decreases s.len() + 1 - from,
{
    if from <= s.len() && !occurs_at(s, pat, from) {
        lemma_find_from(s, pat, from + 1);
    }
}

/// Whether `pat` stands in `s` at position `i`.
pub fn stands_at(s: &[char], pat: &[char], i: usize) -> (res: bool)
    requires
        i <= s@.len(),
    ensures
        res == occurs_at(s@, pat@, i as int),
{
    let len = s.len();
    if len - i < pat.len() {
        return false;
    }
    let mut k: usize = 0;
    while k < pat.len()
        invariant
            k <= pat@.len(),
            i + pat@.len() <= len,
            len == s@.len(),
            forall|j: int| 0 <= j < k ==> s@[i + j] == pat@[j],
        decreases pat@.len() - k,
    {
        if s[i + k] != pat[k] {
            assert(s@.subrange(i as int, i + pat@.len())[k as int] != pat@[k as int]);
            return false;
        }
        k += 1;
    }
    assert(s@.subrange(i as int, i + pat@.len()) == pat@);
    true
}

/// Finds the first occurrence of `pat` at or after `from`.
pub fn find_text(s: &[char], pat: &str, from: usize) -> (res: Option<usize>)
    requires
        from <= s@.len(),
    ensures
        match res {
            Some(i) => find_from(s@, pat@, from as int) == Some(i as int),
            None => find_from(s@, pat@, from as int) is None,
        },
{
    let cs = chars_of(pat);
    let mut i: usize = from;
    while i < s.len()
        invariant
            from <= i <= s@.len(),
            cs@ == pat@,
            find_from(s@, pat@, from as int) == find_from(s@, pat@, i as int),
        decreases s@.len() - i,
    {
        if stands_at(s, cs.as_slice(), i) {
            return Some(i);
        }
        i += 1;
    }
    if stands_at(s, cs.as_slice(), i) {
        Some(i)
    } else {
        assert(find_from(s@, pat@, i + 1) is None);
        None
    }
}

/// Whether `pat` stands somewhere in `s`.
pub fn contains_text(s: &[char], pat: &str) -> (res: bool)
    ensures
        res == occurs(s@, pat@),
{
    proof {
        lemma_find_from(s@, pat@, 0);
    }
    match find_text(s, pat, 0) {
        Some(i) => true,
        None => {
            assert(!occurs(s@, pat@)) by {
                assert forall|j: int| !occurs_at(s@, pat@, j) by {
                    if j >= 0 {
                        assert(!occurs_at(s@, pat@, j));
                    }
                }
            }
            false
        },
    }
}

/// Whether the character stands somewhere in `s`.
pub fn contains_char(s: &[char], c: char) -> (res: bool)
    ensures
        res == s@.contains(c),
{
    let i = find_class(s, CharClass::Is(c), 0);
    proof {
        lemma_first_in(s@, CharClass::Is(c), 0);
        if i == s@.len() && s@.contains(c) {
            let k = choose|k: int| 0 <= k < s@.len() && s@[k] == c;
            assert(!in_class(CharClass::Is(c), s@[k]));
        }
    }
    i < s.len()
}

/// Whether `s` begins with the given string.
pub fn begins_with(s: &[char], prefix: &str) -> (res: bool)
    ensures
        res == prefix@.is_prefix_of(s@),
{
    let cs = chars_of(prefix);
    stands_at(s, cs.as_slice(), 0)
}

/// The pieces of `s` between the occurrences of `c`.
pub open spec fn split(s: Seq<char>, c: char) -> Seq<Seq<char>>
    decreases s.len(),
{
    if s.len() == 0 {
        seq![Seq::empty()]
    } else {
        let pieces = split(s.drop_last(), c);
        if s.last() == c {
            pieces.push(Seq::empty())
        } else {
            pieces.drop_last().push(pieces.last().push(s.last()))
        }
    }
}

/// The pieces with `sep` between them.
pub open spec fn join(pieces: Seq<Seq<char>>, sep: Seq<char>) -> Seq<char>
    decreases pieces.len(),
{
    if pieces.len() == 0 {
        Seq::empty()
    } else if pieces.len() == 1 {
        pieces[0]
    } else {
        join(pieces.drop_last(), sep) + sep + pieces.last()
    }
}

/// There is always at least one piece, and none holds the separator.
pub proof fn lemma_split_pieces(s: Seq<char>, c: char)
    ensures
        split(s, c).len() >= 1,
        forall|i: int| 0 <= i < split(s, c).len() ==> !(#[trigger] split(s, c)[i]).contains(c),
    decreases s.len(),
{
    if s.len() > 0 {
        let pieces = split(s.drop_last(), c);
        lemma_split_pieces(s.drop_last(), c);
        assert forall|i: int| 0 <= i < split(s, c).len() implies !(#[trigger] split(
            s,
            c,
        )[i]).contains(c) by {
            if i < pieces.len() - 1 || s.last() == c && i < pieces.len() {
                assert(split(s, c)[i] == pieces[i]);
            } else if s.last() != c {
                assert(split(s, c)[i] == pieces.last().push(s.last()));
                assert(!pieces[pieces.len() - 1].contains(c));
                if pieces.last().push(s.last()).contains(c) {
                    let k = choose|k: int|
                        0 <= k < pieces.last().push(s.last()).len() && pieces.last().push(
                            s.last(),
                        )[k] == c;
                    assert(k < pieces.last().len() ==> pieces.last()[k] == c);
                }
            }
        }
    }
}

/// Joining the pieces of a split with the separator gives the text back.
pub proof fn law_join_split(s: Seq<char>, c: char)
    ensures
        join(split(s, c), seq![c]) == s,
    decreases s.len(),
{
    if s.len() > 0 {
        let pieces = split(s.drop_last(), c);
        lemma_split_pieces(s.drop_last(), c);
        law_join_split(s.drop_last(), c);
        assert(s == s.drop_last().push(s.last()));
        if s.last() == c {
            assert(split(s, c).drop_last() == pieces);
            assert(join(split(s, c), seq![c]) == join(pieces, seq![c]) + seq![c] + Seq::empty());
            assert(s == s.drop_last() + seq![c] + Seq::empty());
        } else {
            let grown = pieces.drop_last().push(pieces.last().push(s.last()));
            assert(grown.drop_last() == pieces.drop_last());
            if pieces.len() == 1 {
                assert(grown.len() == 1);
                assert(pieces[0] == pieces.last());
            } else {
                assert(join(grown, seq![c]) == join(pieces.drop_last(), seq![c]) + seq![c]
                    + pieces.last().push(s.last()));
                assert(join(pieces.drop_last(), seq![c]) + seq![c] + pieces.last().push(s.last())
                    == (join(pieces.drop_last(), seq![c]) + seq![c] + pieces.last()).push(
                    s.last(),
                ));
            }
        }
    } else {
        assert(split(s, c)[0] == s);
    }
}

/// Splitting pieces that were joined with the separator gives the pieces back,
/// if there are any and none holds the separator.
pub proof fn law_split_join(pieces: Seq<Seq<char>>, c: char)
    requires
        pieces.len() > 0,
        forall|i: int| 0 <= i < pieces.len() ==> !(#[trigger] pieces[i]).contains(c),
    ensures
        split(join(pieces, seq![c]), c) == pieces,
    decreases pieces.len(),
{
    let last = pieces.last();
    assert(!pieces[pieces.len() - 1].contains(c));
    if pieces.len() == 1 {
        lemma_split_behind(Seq::empty(), last, c);
        assert(Seq::<char>::empty() + last == last);
        assert(split(Seq::<char>::empty(), c) =~= seq![Seq::<char>::empty()]);
        assert(pieces =~= seq![last]);
    } else {
        let front = pieces.drop_last();
        law_split_join(front, c);
        let head = join(front, seq![c]);
        let open = head.push(c);
        assert(open.drop_last() == head);
        assert(split(open, c) == front.push(Seq::empty()));
        lemma_split_behind(open, last, c);
        assert(join(pieces, seq![c]) == open + last);
        assert(front.push(Seq::<char>::empty()).drop_last() == front);
        assert(Seq::<char>::empty() + last == last);
        assert(pieces == front.push(last));
    }
}

proof fn lemma_split_behind(s: Seq<char>, tail: Seq<char>, c: char)
    requires
        !tail.contains(c),
    ensures
        split(s + tail, c) == split(s, c).drop_last().push(split(s, c).last() + tail),
    decreases tail.len(),
{
    let pieces = split(s, c);
    lemma_split_pieces(s, c);
    if tail.len() == 0 {
        assert(s + tail == s);
        assert(pieces.last() + tail == pieces.last());
        assert(pieces == pieces.drop_last().push(pieces.last()));
    } else {
        let front = tail.drop_last();
        assert(tail[tail.len() - 1] != c);
        assert(!front.contains(c)) by {
            if front.contains(c) {
                let k = choose|k: int| 0 <= k < front.len() && front[k] == c;
                assert(tail[k] == c);
            }
        }
        lemma_split_behind(s, front, c);
        assert((s + tail).drop_last() == s + front);
        let before = pieces.drop_last().push(pieces.last() + front);
        assert(before.drop_last() == pieces.drop_last());
        assert((pieces.last() + front).push(tail.last()) == pieces.last() + tail);
    }
}

/// The pieces around a separator are those before and those behind it.
pub proof fn lemma_split_around(a: Seq<char>, b: Seq<char>, c: char)
    ensures
        split(a.push(c) + b, c) == split(a, c) + split(b, c),
    decreases b.len(),
{
    lemma_split_pieces(a, c);
    lemma_split_pieces(b, c);
    if b.len() == 0 {
        assert(a.push(c) + b =~= a.push(c));
        assert(a.push(c).drop_last() =~= a);
        assert(split(b, c) =~= seq![Seq::<char>::empty()]);
        assert(split(a.push(c), c) =~= split(a, c) + split(b, c));
    } else {
        let front = b.drop_last();
        lemma_split_around(a, front, c);
        lemma_split_pieces(front, c);
        let whole = a.push(c) + b;
        assert(whole.drop_last() =~= a.push(c) + front);
        assert(whole.last() == b.last());
        let left = split(a, c);
        let right = split(front, c);
        if b.last() == c {
            assert((left + right).push(Seq::empty()) =~= left + right.push(Seq::empty()));
        } else {
            assert((left + right).drop_last() =~= left + right.drop_last());
            assert((left + right).last() == right.last());
            assert(split(whole, c) =~= left + split(b, c));
        }
    }
}

/// The text without the whitespace around it.
pub open spec fn trimmed(s: Seq<char>) -> Seq<char> {
    trim_to(s, CharClass::NonSpace)
}

/// A text that neither begins nor ends with whitespace stays whole.
pub proof fn lemma_nothing_to_trim(s: Seq<char>)
    requires
        s.len() > 0,
        !is_whitespace(s[0]),
        !is_whitespace(s.last()),
    ensures
        trimmed(s) == s,
{
    assert(first_in(s, CharClass::NonSpace, 0) == 0);
    assert(end_of_last(s, CharClass::NonSpace, s.len() as int) == s.len());
    assert(s.subrange(0, s.len() as int) == s);
}

/// One more item taken adds this item only.
pub proof fn lemma_taken_next<A>(s: Seq<A>, i: int, x: A)
    requires
        0 <= i < s.len(),
    ensures
        s.take(i + 1).contains(x) == (s.take(i).contains(x) || s[i] == x),
{
    let next = s.take(i + 1);
    let before = s.take(i);
    if before.contains(x) {
        let k = choose|k: int| 0 <= k < before.len() && before[k] == x;
        assert(next[k] == x);
    }
    if s[i] == x {
        assert(next[i] == x);
    }
    if next.contains(x) {
        let k = choose|k: int| 0 <= k < next.len() && next[k] == x;
        if k < i {
            assert(before[k] == x);
        }
    }
}

/// The views of a list of texts.
pub open spec fn texts(v: Seq<Vec<char>>) -> Seq<Seq<char>> {
    Seq::new(v.len(), |i: int| v[i]@)
}

/// The texts of a list of strings.
pub open spec fn strings(v: Seq<String>) -> Seq<Seq<char>> {
    Seq::new(v.len(), |i: int| v[i]@)
}

/// Whether the list holds the text.
pub fn holds_text(list: &[String], s: &str) -> (res: bool)
    ensures
        res == strings(list@).contains(s@),
{
    let ghost all = strings(list@);
    let mut i: usize = 0;
    while i < list.len()
        invariant
            i <= list@.len(),
            all == strings(list@),
            forall|k: int| 0 <= k < i ==> #[trigger] all[k] != s@,
        decreases list@.len() - i,
    {
        assert(all[i as int] == list@[i as int]@);
        if same_text(list[i].as_str(), s) {
            assert(all.contains(s@));
            return true;
        }
        i += 1;
    }
    assert(!all.contains(s@));
    false
}

/// Splits `s` at every `c`.
pub fn split_at_char(s: &[char], c: char) -> (res: Vec<Vec<char>>)
    ensures
        texts(res@) == split(s@, c),
        res@.len() >= 1,
{
    let mut out: Vec<Vec<char>> = Vec::new();
    let mut piece: Vec<char> = Vec::new();
    let mut i: usize = 0;
    assert(split(s@.take(0), c) == texts(out@).push(piece@));
    while i < s.len()
        invariant
            i <= s@.len(),
            split(s@.take(i as int), c) == texts(out@).push(piece@),
        decreases s@.len() - i,
    {
        let ghost before = texts(out@);
        assert(s@.take(i + 1).drop_last() == s@.take(i as int));
        assert(before.push(piece@).drop_last() == before);
        if s[i] == c {
            let ghost done = piece@;
            out.push(piece);
            piece = Vec::new();
            assert(texts(out@) == before.push(done));
            assert(piece@ == Seq::<char>::empty());
        } else {
            piece.push(s[i]);
        }
        i += 1;
    }
    assert(s@.take(s@.len() as int) == s@);
    let ghost before = texts(out@);
    let ghost done = piece@;
    out.push(piece);
    assert(texts(out@) == before.push(done));
    out
}

/// `s` with every `from` replaced by `to`.
pub open spec fn replace_char(s: Seq<char>, from: char, to: char) -> Seq<char> {
    Seq::new(s.len(), |i: int| if s[i] == from { to } else { s[i] })
}

/// Replaces every `from` in `s` by `to`.
pub fn replaced(s: &[char], from: char, to: char) -> (res: Vec<char>)
    ensures
        res@ == replace_char(s@, from, to),
{
    let mut out: Vec<char> = Vec::new();
    let mut i: usize = 0;
    while i < s.len()
        invariant
            i <= s@.len(),
            out@.len() == i,
            forall|j: int| 0 <= j < i ==> out@[j] == replace_char(s@, from, to)[j],
        decreases s@.len() - i,
    {
        if s[i] == from {
            out.push(to);
        } else {
            out.push(s[i]);
        }
        i += 1;
    }
    assert(out@ == replace_char(s@, from, to));
    out
}

/// The digit with value `d`.
pub open spec fn digit_char(d: nat) -> char {
    (48 + d) as char
}

/// The value of a digit.
pub open spec fn digit_value(c: char) -> nat {
    (c as int - 48) as nat
}

/// `n` in decimal, without leading zeros.
pub open spec fn decimal(n: nat) -> Seq<char>
    decreases n,
{
    if n < 10 {
        seq![digit_char(n)]
    } else {
        decimal(n / 10).push(digit_char(n % 10))
    }
}

/// The value of a sequence of digits.
pub open spec fn numeral_value(s: Seq<char>) -> nat
    decreases s.len(),
{
    if s.len() == 0 {
        0
    } else {
        numeral_value(s.drop_last()) * 10 + digit_value(s.last())
    }
}

/// A decimal numeral: one digit or more, and nothing else.
pub open spec fn is_numeral(s: Seq<char>) -> bool {
    s.len() > 0 && forall|i: int| 0 <= i < s.len() ==> is_digit(#[trigger] s[i])
}

/// The machine number that `s` denotes: `s` has to be a numeral, and its value
/// has to fit.
pub open spec fn usize_of(s: Seq<char>) -> Option<usize> {
    if is_numeral(s) && numeral_value(s) <= usize::MAX {
        Some(numeral_value(s) as usize)
    } else {
        None
    }
}

/// A decimal is a numeral, and it denotes its number.
pub proof fn law_decimal_denotes(n: nat)
    ensures
        is_numeral(decimal(n)),
        numeral_value(decimal(n)) == n,
        n <= usize::MAX ==> usize_of(decimal(n)) == Some(n as usize),
    decreases n,
{
    if n < 10 {
        assert(decimal(n).drop_last() == Seq::<char>::empty());
        assert(decimal(n).last() == digit_char(n));
        assert(numeral_value(Seq::<char>::empty()) == 0);
    } else {
        law_decimal_denotes(n / 10);
        assert(decimal(n).drop_last() == decimal(n / 10));
        assert(decimal(n).last() == digit_char(n % 10));
    }
}

proof fn lemma_numeral_prefix(s: Seq<char>, i: int)
    requires
        0 <= i <= s.len(),
    ensures
        numeral_value(s.take(i)) <= numeral_value(s),
    decreases s.len() - i,
{
    if i < s.len() {
        lemma_numeral_prefix(s, i + 1);
        assert(s.take(i + 1).drop_last() == s.take(i));
    } else {
        assert(s.take(i) == s);
    }
}

/// Reads `s` as a decimal number.
pub fn parse_usize(s: &[char]) -> (res: Option<usize>)
    ensures
        res == usize_of(s@),
{
    if s.len() == 0 {
        return None;
    }
    let mut value: usize = 0;
    let mut i: usize = 0;
    while i < s.len()
        invariant
            i <= s@.len(),
            value == numeral_value(s@.take(i as int)),
            forall|j: int| 0 <= j < i ==> is_digit(#[trigger] s@[j]),
        decreases s@.len() - i,
    {
        let c = s[i];
        if !char_is_digit(c) {
            assert(!is_digit(s@[i as int]));
            return None;
        }
        let d: usize = (c as u32 - 48) as usize;
        proof {
            lemma_numeral_prefix(s@, i + 1);
            assert(s@.take(i + 1).drop_last() == s@.take(i as int));
            assert(s@.take(i + 1).last() == c);
        }
        if value > usize::MAX / 10 {
            return None;
        }
        let tens: usize = value * 10;
        if d > usize::MAX - tens {
            return None;
        }
        value = tens + d;
        i += 1;
    }
    assert(s@.take(s@.len() as int) == s@);
    Some(value)
}

/// Writes `n` in decimal.
pub fn decimal_text(n: usize) -> (res: Vec<char>)
    ensures
        res@ == decimal(n as nat),
    decreases n,
{
    let last: char = ((n % 10) as u8 + 48) as char;
    assert(last == digit_char((n % 10) as nat));
    if n < 10 {
        let mut out: Vec<char> = Vec::new();
        out.push(last);
        assert(out@ == decimal(n as nat));
        out
    } else {
        let mut out = decimal_text(n / 10);
        out.push(last);
        out
    }
}

/// Letters and digits are those of ASCII; whether another character is a letter
/// or a number, or whitespace, the Unicode tables say.
pub proof fn law_characters(c: char)
    ensures
        is_digit(c) <==> 48 <= c as u32 <= 57,
        is_letter(c) <==> 65 <= c as u32 <= 90 || 97 <= c as u32 <= 122,
        (c as u32) < 128 ==> (is_alphanumeric(c) <==> is_letter(c) || is_digit(c)),
        (c as u32) < 128 ==> (is_whitespace(c) <==> c as u32 == 32 || 9 <= c as u32 <= 13),
        (c as u32) >= 128 ==> is_alphanumeric(c) == unicode_alphanumeric(c) && is_whitespace(c)
            == unicode_whitespace(c),
{
}

/// What the classes of characters hold.
pub proof fn law_classes(x: char, y: char, z: char, c: char)
    ensures
        in_class(CharClass::Is(x), c) <==> c == x,
        in_class(CharClass::IsNot(x), c) <==> c != x,
        in_class(CharClass::OneOf(x, y, z), c) <==> c == x || c == y || c == z,
        in_class(CharClass::Digit, c) <==> 48 <= c as u32 <= 57,
        in_class(CharClass::NonDigit, c) <==> !in_class(CharClass::Digit, c),
        in_class(CharClass::NonAlnum, c) <==> !is_letter(c) && !is_digit(c),
        in_class(CharClass::NonSpace, c) <==> !is_whitespace(c),
{
}

/// Trimming leaves what begins and ends with a character of the class, whatever
/// stands around it, and nothing where there is none.
pub proof fn law_trimming(a: Seq<char>, s: Seq<char>, b: Seq<char>, class: CharClass)
    requires
        forall|i: int| 0 <= i < a.len() ==> !in_class(class, #[trigger] a[i]),
        forall|i: int| 0 <= i < b.len() ==> !in_class(class, #[trigger] b[i]),
        s.len() > 0 ==> in_class(class, s[0]) && in_class(class, s.last()),
    ensures
        trim_to(a + s + b, class) == s,
{
    let all = a + s + b;
    let start = a.len() as int;
    let end = start + s.len();
    assert forall|i: int| 0 <= i < start implies !in_class(class, #[trigger] all[i]) by {
        assert(all[i] == a[i]);
    }
    assert forall|i: int| end <= i < all.len() implies !in_class(class, #[trigger] all[i]) by {
        assert(all[i] == b[i - end]);
    }
    lemma_trailing(all, class, end, all.len() as int);
    if s.len() > 0 {
        assert(all[start] == s[0]);
        assert(all[end - 1] == s.last());
        lemma_first_in_unique(all, class, 0, start);
        assert(end_of_last(all, class, end) == end);
        assert(all.subrange(start, end) =~= s);
    } else {
        assert forall|i: int| 0 <= i < all.len() implies !in_class(class, #[trigger] all[i]) by {
            if i >= end {
                assert(all[i] == b[i - end]);
            }
        }
        lemma_trailing(all, class, 0, all.len() as int);
        assert(first_in(all, class, 0) >= 0) by {
            lemma_first_in(all, class, 0);
        }
        assert(s =~= Seq::empty());
    }
}

/// Characters outside the class at the end do not count.
pub proof fn lemma_trailing(s: Seq<char>, class: CharClass, end: int, upto: int)
    requires
        0 <= end <= upto <= s.len(),
        forall|i: int| end <= i < upto ==> !in_class(class, #[trigger] s[i]),
    ensures
        end_of_last(s, class, upto) == end_of_last(s, class, end),
    decreases upto,
{
    if end < upto {
        lemma_trailing(s, class, end, upto - 1);
    }
}

/// A text is found where it stands first, and nowhere if it stands nowhere.
pub proof fn law_finding(s: Seq<char>, pat: Seq<char>)
    ensures
        match find(s, pat) {
            Some(i) => 0 <= i && s.len() >= i + pat.len() && s.subrange(i, i + pat.len()) == pat
                && forall|j: int| 0 <= j < i ==> !#[trigger] occurs_at(s, pat, j),
            None => !occurs(s, pat),
        },
        forall|j: int| #[trigger]
            occurs_at(s, pat, j) <==> 0 <= j && j + pat.len() <= s.len() && s.subrange(
                j,
                j + pat.len(),
            ) == pat,
        occurs(s, pat) <==> exists|j: int| #[trigger] occurs_at(s, pat, j),
{
    lemma_find_from(s, pat, 0);
}

/// Replacing a character changes its occurrences and nothing else.
pub proof fn law_replacing(s: Seq<char>, from: char, to: char)
    ensures
        replace_char(s, from, to).len() == s.len(),
        forall|i: int|
            0 <= i < s.len() ==> #[trigger] replace_char(s, from, to)[i] == if s[i] == from {
                to
            } else {
                s[i]
            },
{
}

/// A decimal has no leading zeros, and one more digit behind a numeral makes its
/// value ten times as large and adds the digit.
pub proof fn law_numerals(n: nat, s: Seq<char>, c: char)
    ensures
        decimal(n).len() > 0,
        n > 0 ==> decimal(n)[0] != '0',
        n < 10 ==> decimal(n).len() == 1,
        is_digit(c) ==> numeral_value(s.push(c)) == 10 * numeral_value(s) + (c as u32 - 48),
        numeral_value(Seq::empty()) == 0,
        usize_of(s) is Some ==> s.len() > 0 && numeral_value(s) == usize_of(s).unwrap() && forall|
            i: int,
        |
            0 <= i < s.len() ==> is_digit(#[trigger] s[i]),
        s.len() > 0 && numeral_value(s) <= usize::MAX && (forall|i: int|
            0 <= i < s.len() ==> is_digit(#[trigger] s[i])) ==> usize_of(s) is Some,
    decreases n,
{
    assert(s.push(c).drop_last() =~= s);
    if n >= 10 {
        law_numerals(n / 10, s, c);
        assert(decimal(n)[0] == decimal(n / 10)[0]);
    }
}

} // verus!
