//! Operand constraints: architectures, constraint strings and the register
//! classes that they select, reserved registers and template modifiers.

use crate::errors::{generic_error, ErrorView, TranslationError, TranslationResult};
use crate::text::{
    begins_with, char_is_digit, chars_of, contains_char, copy_range, find_class, first_in, in_class,
    is_digit, is_text, lemma_first_in, lemma_first_in_unique, push_all, push_text, string_of,
    strings, CharClass,
};
use vstd::prelude::*;

verus! {

/// An argument direction specifier for a Rust `asm!` expression.
#[derive(Clone, Copy, PartialEq, Eq, Structural, Debug)]
pub enum ArgDirSpec {
    In,
    Out,
    InOut,
    LateOut,
    InLateOut,
}

/// How a direction specifier is written in `asm!`.
pub open spec fn dir_keyword(dir: ArgDirSpec) -> Seq<char> {
    match dir {
        ArgDirSpec::In => "in"@,
        ArgDirSpec::Out => "out"@,
        ArgDirSpec::InOut => "inout"@,
        ArgDirSpec::LateOut => "lateout"@,
        ArgDirSpec::InLateOut => "inlateout"@,
    }
}

/// The direction that also takes an input.
pub open spec fn dir_with_in(dir: ArgDirSpec) -> ArgDirSpec {
    match dir {
        ArgDirSpec::In => ArgDirSpec::In,
        ArgDirSpec::Out | ArgDirSpec::InOut => ArgDirSpec::InOut,
        ArgDirSpec::LateOut | ArgDirSpec::InLateOut => ArgDirSpec::InLateOut,
    }
}

impl ArgDirSpec {
    /// How this direction specifier is written in `asm!`.
    pub fn keyword(&self) -> (res: &'static str)
        ensures
            res@ == dir_keyword(*self),
    {
        match self {
            ArgDirSpec::In => "in",
            ArgDirSpec::Out => "out",
            ArgDirSpec::InOut => "inout",
            ArgDirSpec::LateOut => "lateout",
            ArgDirSpec::InLateOut => "inlateout",
        }
    }

    /// The direction that also takes an input.
    pub fn with_in(&self) -> (res: Self)
        ensures
            res == dir_with_in(*self),
    {
        match self {
            ArgDirSpec::In => ArgDirSpec::In,
            ArgDirSpec::Out => ArgDirSpec::InOut,
            ArgDirSpec::InOut => ArgDirSpec::InOut,
            ArgDirSpec::LateOut => ArgDirSpec::InLateOut,
            ArgDirSpec::InLateOut => ArgDirSpec::InLateOut,
        }
    }
}

/// A machine architecture that rustc inline assembly knows about.
#[derive(Clone, Copy, PartialEq, Eq, Structural, Debug)]
pub enum Arch {
    X86,
    X86_64,
    Arm,
    Aarch64,
    Riscv,
}

/// The architecture that a target tuple names, by its beginning. Where one
/// beginning extends another, the longer one decides: `x86_64` before `x86`,
/// `armv8` and `arm64` before `arm`.
pub open spec fn arch_of(target: Seq<char>) -> Option<Arch> {
    if "x86_64"@.is_prefix_of(target) {
        Some(Arch::X86_64)
    } else if "i386"@.is_prefix_of(target) || "i486"@.is_prefix_of(target)
        || "i586"@.is_prefix_of(target) || "i686"@.is_prefix_of(target)
        || "x86"@.is_prefix_of(target) {
        Some(Arch::X86)
    } else if "aarch64"@.is_prefix_of(target) || "armv8"@.is_prefix_of(target)
        || "arm64"@.is_prefix_of(target) {
        Some(Arch::Aarch64)
    } else if "arm"@.is_prefix_of(target) || "thumbv"@.is_prefix_of(target) {
        Some(Arch::Arm)
    } else if "riscv"@.is_prefix_of(target) {
        Some(Arch::Riscv)
    } else {
        None
    }
}

/// Parse a machine architecture from a target tuple. This is a best-effort
/// attempt.
pub fn parse_arch(target_tuple: &str) -> (res: Option<Arch>)
    ensures
        res == arch_of(target_tuple@),
{
    let cs = chars_of(target_tuple);
    let t = cs.as_slice();
    if begins_with(t, "x86_64") {
        Some(Arch::X86_64)
    } else if begins_with(t, "i386") || begins_with(t, "i486") || begins_with(t, "i586")
        || begins_with(t, "i686") || begins_with(t, "x86") {
        Some(Arch::X86)
    } else if begins_with(t, "aarch64") || begins_with(t, "armv8") || begins_with(t, "arm64") {
        Some(Arch::Aarch64)
    } else if begins_with(t, "arm") || begins_with(t, "thumbv") {
        Some(Arch::Arm)
    } else if begins_with(t, "riscv") {
        Some(Arch::Riscv)
    } else {
        None
    }
}

/// The Rust register class or register for an architecture-specific
/// constraint, and whether the operand is the address of memory.
pub open spec fn machine_constraint(c: Seq<char>, arch: Arch) -> Option<(Seq<char>, bool)> {
    match arch {
        Arch::X86 | Arch::X86_64 => {
            if c == "Q"@ {
                Some(("reg_abcd"@, false))
            } else if c == "q"@ {
                Some(("reg_byte"@, false))
            } else if c == "a"@ {
                Some(("\"a\""@, false))
            } else if c == "b"@ {
                Some(("\"b\""@, false))
            } else if c == "c"@ {
                Some(("\"c\""@, false))
            } else if c == "d"@ {
                Some(("\"d\""@, false))
            } else if c == "S"@ {
                Some(("\"si\""@, false))
            } else if c == "D"@ {
                Some(("\"di\""@, false))
            } else if c == "f"@ {
                Some(("x87_reg"@, false))
            } else if c == "t"@ {
                Some(("\"st(0)\""@, false))
            } else if c == "u"@ {
                Some(("\"st(1)\""@, false))
            } else if c == "x"@ {
                Some(("xmm_reg"@, false))
            } else if c == "y"@ {
                Some(("mmx_reg"@, false))
            } else if c == "v"@ {
                Some(("zmm_reg"@, false))
            } else if c == "Yz"@ {
                Some(("\"xmm0\""@, false))
            } else if c == "Yk"@ {
                Some(("kreg"@, false))
            } else {
                None
            }
        },
        Arch::Aarch64 => {
            if c == "k"@ {
                Some(("\"SP\""@, false))
            } else if c == "w"@ {
                Some(("vreg"@, false))
            } else if c == "x"@ {
                Some(("vreg_low16"@, false))
            } else if c == "Upa"@ {
                Some(("preg"@, false))
            } else if c == "Q"@ {
                Some(("reg"@, true))
            } else if c == "Ump"@ {
                Some(("reg"@, true))
            } else {
                None
            }
        },
        Arch::Arm => {
            if c == "k"@ {
                Some(("\"SP\""@, false))
            } else if c == "l"@ {
                Some(("reg"@, false))
            } else if c == "t"@ {
                Some(("sreg"@, false))
            } else if c == "x"@ {
                Some(("sreg_low16"@, false))
            } else if c == "w"@ {
                Some(("dreg"@, false))
            } else if c == "Q"@ {
                Some(("reg"@, true))
            } else if c == "Uv"@ {
                Some(("reg"@, true))
            } else if c == "Uy"@ {
                Some(("reg"@, true))
            } else if c == "Uq"@ {
                Some(("reg"@, true))
            } else {
                None
            }
        },
        Arch::Riscv => {
            if c == "f"@ {
                Some(("freg"@, false))
            } else if c == "A"@ {
                Some(("reg"@, true))
            } else {
                None
            }
        },
    }
}

/// Translate an architecture-specific assembly constraint from llvm/gcc
/// to those accepted by the Rust `asm!` macro. "Simple" (arch-independent)
/// constraints are handled in [`parse_constraints`], not here.
/// See <https://gcc.gnu.org/onlinedocs/gcc/Machine-Constraints.html>,
/// <https://llvm.org/docs/LangRef.html#constraint-codes>, and
/// <https://doc.rust-lang.org/nightly/reference/inline-assembly.html#register-operands>
pub fn translate_machine_constraint(constraint: &str, arch: Arch) -> (res: Option<
    (&'static str, bool),
>)
    ensures
        match res {
            Some((class, mem)) => machine_constraint(constraint@, arch) == Some((class@, mem)),
            None => machine_constraint(constraint@, arch) is None,
        },
{
    let cs = chars_of(constraint);
    let c = cs.as_slice();
    match arch {
        Arch::X86 | Arch::X86_64 => {
            if is_text(c, "Q") {
                Some(("reg_abcd", false))
            } else if is_text(c, "q") {
                Some(("reg_byte", false))
            } else if is_text(c, "a") {
                Some(("\"a\"", false))
            } else if is_text(c, "b") {
                Some(("\"b\"", false))
            } else if is_text(c, "c") {
                Some(("\"c\"", false))
            } else if is_text(c, "d") {
                Some(("\"d\"", false))
            } else if is_text(c, "S") {
                Some(("\"si\"", false))
            } else if is_text(c, "D") {
                Some(("\"di\"", false))
            } else if is_text(c, "f") {
                Some(("x87_reg", false))
            } else if is_text(c, "t") {
                Some(("\"st(0)\"", false))
            } else if is_text(c, "u") {
                Some(("\"st(1)\"", false))
            } else if is_text(c, "x") {
                Some(("xmm_reg", false))
            } else if is_text(c, "y") {
                Some(("mmx_reg", false))
            } else if is_text(c, "v") {
                Some(("zmm_reg", false))
            } else if is_text(c, "Yz") {
                Some(("\"xmm0\"", false))
            } else if is_text(c, "Yk") {
                Some(("kreg", false))
            } else {
                None
            }
        },
        Arch::Aarch64 => {
            if is_text(c, "k") {
                Some(("\"SP\"", false))
            } else if is_text(c, "w") {
                Some(("vreg", false))
            } else if is_text(c, "x") {
                Some(("vreg_low16", false))
            } else if is_text(c, "Upa") {
                Some(("preg", false))
            } else if is_text(c, "Q") {
                Some(("reg", true))
            } else if is_text(c, "Ump") {
                Some(("reg", true))
            } else {
                None
            }
        },
        Arch::Arm => {
            if is_text(c, "k") {
                Some(("\"SP\"", false))
            } else if is_text(c, "l") {
                Some(("reg", false))
            } else if is_text(c, "t") {
                Some(("sreg", false))
            } else if is_text(c, "x") {
                Some(("sreg_low16", false))
            } else if is_text(c, "w") {
                Some(("dreg", false))
            } else if is_text(c, "Q") {
                Some(("reg", true))
            } else if is_text(c, "Uv") {
                Some(("reg", true))
            } else if is_text(c, "Uy") {
                Some(("reg", true))
            } else if is_text(c, "Uq") {
                Some(("reg", true))
            } else {
                None
            }
        },
        Arch::Riscv => {
            if is_text(c, "f") {
                Some(("freg", false))
            } else if is_text(c, "A") {
                Some(("reg", true))
            } else {
                None
            }
        },
    }
}

/// The template modifier of Rust's `asm!` for one of llvm/gcc. On x86 five
/// are known; `p` and `q` on Arm and `z` on RISC-V have no counterpart.
pub open spec fn rust_modifier(modifier: char, arch: Arch) -> Option<char> {
    match arch {
        Arch::X86 | Arch::X86_64 => if modifier == 'k' {
            Some('e')
        } else if modifier == 'q' {
            Some('r')
        } else if modifier == 'b' {
            Some('l')
        } else if modifier == 'h' {
            Some('h')
        } else if modifier == 'w' {
            Some('x')
        } else {
            None
        },
        Arch::Aarch64 => Some(modifier),
        Arch::Arm => if modifier == 'p' || modifier == 'q' {
            None
        } else {
            Some(modifier)
        },
        Arch::Riscv => if modifier == 'z' {
            None
        } else {
            Some(modifier)
        },
    }
}

/// Translate a template modifier from llvm/gcc asm template argument modifiers
/// to those accepted by the Rust `asm!` macro. This is arch-dependent, so we
/// need to know which architecture the asm targets.
/// See <https://doc.rust-lang.org/nightly/reference/inline-assembly.html#template-modifiers>
///
/// RISC-V's `z` prints `zero` for an operand that is the constant 0. Operands
/// are always real registers here, for which it prints nothing special, and
/// the `reg` class takes no modifier: it is dropped.
pub fn translate_modifier(modifier: char, arch: Arch) -> (res: Option<char>)
    ensures
        res == rust_modifier(modifier, arch),
{
    match arch {
        Arch::X86 | Arch::X86_64 => {
            if modifier == 'k' {
                Some('e')
            } else if modifier == 'q' {
                Some('r')
            } else if modifier == 'b' {
                Some('l')
            } else if modifier == 'h' {
                Some('h')
            } else if modifier == 'w' {
                Some('x')
            } else {
                None
            }
        },
        Arch::Aarch64 => Some(modifier),
        Arch::Arm => {
            if modifier == 'p' || modifier == 'q' {
                None
            } else {
                Some(modifier)
            }
        },
        Arch::Riscv => {
            if modifier == 'z' {
                None
            } else {
                Some(modifier)
            }
        },
    }
}

/// The text begins with this character.
pub open spec fn starts_with_char(s: Seq<char>, c: char) -> bool {
    s.len() > 0 && s[0] == c
}

/// The marks at the front of a constraint string, and what they leave.
#[verifier::ext_equal]
pub struct ConstraintParts {
    /// `=`: written only.
    pub output_only: bool,
    /// `&`: written before all inputs are read.
    pub early_clobber: bool,
    /// `*`: passed by address.
    pub indirect: bool,
    /// What stands before the first comma.
    pub body: Seq<char>,
    /// There is a comma.
    pub has_comma: bool,
}

/// Takes the marks off a constraint string: `+` or `=`, then `&`, then `*`,
/// each optional.
pub open spec fn constraint_parts(s: Seq<char>) -> ConstraintParts {
    let s1 = if starts_with_char(s, '+') || starts_with_char(s, '=') {
        s.skip(1)
    } else {
        s
    };
    let s2 = if starts_with_char(s1, '&') {
        s1.skip(1)
    } else {
        s1
    };
    let s3 = if starts_with_char(s2, '*') {
        s2.skip(1)
    } else {
        s2
    };
    let comma = first_in(s3, CharClass::Is(','), 0);
    ConstraintParts {
        output_only: starts_with_char(s, '='),
        early_clobber: starts_with_char(s1, '&'),
        indirect: starts_with_char(s2, '*'),
        body: s3.take(comma),
        has_comma: comma < s3.len(),
    }
}

/// Register names are quoted instead of braced.
pub open spec fn quote_braces(s: Seq<char>) -> Seq<char> {
    Seq::new(s.len(), |i: int| if s[i] == '{' || s[i] == '}' { '"' } else { s[i] })
}

/// Only ASCII digits.
pub open spec fn all_digits(s: Seq<char>) -> bool {
    forall|i: int| 0 <= i < s.len() ==> is_digit(#[trigger] s[i])
}

/// The letters `m`, `r` and `i`, which every architecture has.
pub open spec fn generic_letters() -> CharClass {
    CharClass::OneOf('m', 'r', 'i')
}

/// The body is an explicit register, in quotes, or the index of an operand.
pub open spec fn is_register_or_index(body: Seq<char>) -> bool {
    body.len() > 0 && (body[0] == '"' || all_digits(body))
}

/// What a constraint body selects: the register class, register or index, and
/// whether the operand is memory, which one passed by address always is. A
/// register name or an index stands for itself. Of a list of alternatives, the
/// first of `m`, `r` and `i` decides, whatever else is listed. Otherwise the
/// body is a constraint of the machine.
pub open spec fn operand_class(body: Seq<char>, indirect: bool, arch: Arch) -> Option<
    (Seq<char>, bool),
> {
    let k = first_in(body, generic_letters(), 0);
    if body.len() == 0 || is_register_or_index(body) {
        Some((body, indirect))
    } else if k < body.len() {
        Some(("reg"@, indirect || body[k] == 'm'))
    } else {
        match machine_constraint(body, arch) {
            Some((class, is_mem)) => Some((class, indirect || is_mem)),
            None => None,
        }
    }
}

/// The direction of an operand: memory operands take their address in; others
/// are written early or late, with an input or without.
pub open spec fn operand_dir(mem_only: bool, is_input: bool, early_clobber: bool) -> ArgDirSpec {
    if mem_only {
        ArgDirSpec::In
    } else if is_input {
        if early_clobber {
            ArgDirSpec::InOut
        } else {
            ArgDirSpec::InLateOut
        }
    } else {
        if early_clobber {
            ArgDirSpec::Out
        } else {
            ArgDirSpec::LateOut
        }
    }
}

/// What a constraint string means: direction, whether the operand is memory,
/// and the register class, register or index; or why it has no meaning.
pub open spec fn parsed_constraints(s: Seq<char>, arch: Arch) -> Result<
    (ArgDirSpec, bool, Seq<char>),
    ErrorView,
> {
    let parts = constraint_parts(s);
    let body = quote_braces(parts.body);
    if parts.has_comma && !parts.output_only {
        Err(generic_error("Inline assembly constraints could not be parsed: "@ + parts.body))
    } else {
        match operand_class(body, parts.indirect, arch) {
            Some((class, mem_only)) => {
                let is_input = !parts.output_only || parts.has_comma;
                Ok((operand_dir(mem_only, is_input, parts.early_clobber), mem_only, class))
            },
            None => Err(
                generic_error(
                    "Inline assembly constraint '"@ + body
                        + "' has no known translation to a Rust asm! operand kind for this target"@,
                ),
            ),
        }
    }
}

/// What is said about a constraint of the machine that has no translation: a
/// note on `U` of x86, and that the statement becomes an error.
pub open spec fn refusal_notes(body: Seq<char>, arch: Arch) -> Seq<Seq<char>> {
    let general = "Did not recognize inline asm constraint: "@ + body
        + "\nThis constraint has no known, safe translation to a Rust asm! register class or operand kind; the containing statement will be translated as an error instead of emitting output that may silently misbehave."@;
    if (arch is X86 || arch is X86_64) && body == "U"@ {
        seq![
            "the x86 'U' inline assembly operand constraint cannot be translated correctly. It corresponds to the `clobber_abi` option for `asm!`, but c2rust does not know the ABI being used, so it cannot be translated automatically. Please correct manually after translation."@,
            general,
        ]
    } else {
        seq![general]
    }
}

/// The warnings about a constraint string: none, unless its body has no
/// translation.
pub open spec fn warnings_about(s: Seq<char>, arch: Arch) -> Seq<Seq<char>> {
    let parts = constraint_parts(s);
    let body = quote_braces(parts.body);
    if (parts.has_comma && !parts.output_only) || operand_class(body, parts.indirect, arch)
        is Some {
        Seq::empty()
    } else {
        refusal_notes(body, arch)
    }
}

/// A parsed constraint with its text viewed.
pub open spec fn constraint_view(r: TranslationResult<(ArgDirSpec, bool, String)>) -> Result<
    (ArgDirSpec, bool, Seq<char>),
    ErrorView,
> {
    match r {
        Ok((dir, mem_only, class)) => Ok((dir, mem_only, class@)),
        Err(e) => Err(e@),
    }
}

fn skip_char(s: &[char], from: usize, c: char) -> (res: (bool, usize))
    requires
        from <= s@.len(),
    ensures
        res.0 == starts_with_char(s@.skip(from as int), c),
        res.1 == if res.0 {
            from + 1
        } else {
            from as int
        },
        res.1 <= s@.len(),
        res.0 ==> s@.skip(from as int).skip(1) == s@.skip(res.1 as int),
{
    if from < s.len() && s[from] == c {
        (true, from + 1)
    } else {
        (false, from)
    }
}

fn quoted_braces(s: &[char]) -> (res: Vec<char>)
    ensures
        res@ == quote_braces(s@),
{
    let mut out: Vec<char> = Vec::new();
    let mut i: usize = 0;
    while i < s.len()
        invariant
            i <= s@.len(),
            out@.len() == i,
            forall|j: int| 0 <= j < i ==> out@[j] == quote_braces(s@)[j],
        decreases s@.len() - i,
    {
        if s[i] == '{' || s[i] == '}' {
            out.push('"');
        } else {
            out.push(s[i]);
        }
        i += 1;
    }
    assert(out@ == quote_braces(s@));
    out
}

proof fn lemma_first_in_suffix(s: Seq<char>, class: CharClass, from: int, at: int)
    requires
        0 <= from <= at <= s.len(),
    ensures
        first_in(s, class, at) == from + first_in(s.skip(from), class, at - from),
    decreases s.len() - at,
{
    if at < s.len() {
        assert(s.skip(from)[at - from] == s[at]);
        lemma_first_in_suffix(s, class, from, at + 1);
    }
}

/// A constraint string taken apart.
struct RawConstraint {
    output_only: bool,
    early_clobber: bool,
    indirect: bool,
    has_comma: bool,
    raw: Vec<char>,
}

impl RawConstraint {
    spec fn parts(self) -> ConstraintParts {
        ConstraintParts {
            output_only: self.output_only,
            early_clobber: self.early_clobber,
            indirect: self.indirect,
            body: self.raw@,
            has_comma: self.has_comma,
        }
    }
}

fn take_apart(constraints: &str) -> (res: RawConstraint)
    ensures
        res.parts() == constraint_parts(constraints@),
{
    let all = chars_of(constraints);
    let s = all.as_slice();
    assert(s@.skip(0) == s@);
    let (plus, from_plus) = skip_char(s, 0, '+');
    let (output_only, from_eq) = skip_char(s, 0, '=');
    let at_amp: usize = if plus {
        from_plus
    } else {
        from_eq
    };
    let (early_clobber, at_star) = skip_char(s, at_amp, '&');
    let (indirect, start) = skip_char(s, at_star, '*');
    let comma = find_class(s, CharClass::Is(','), start);
    proof {
        lemma_first_in_suffix(s@, CharClass::Is(','), start as int, start as int);
    }
    let raw = copy_range(s, start, comma);
    let has_comma = comma < s.len();
    proof {
        let parts = constraint_parts(constraints@);
        let rest = s@.skip(start as int);
        assert(parts.early_clobber == early_clobber);
        assert(parts.indirect == indirect);
        assert(parts.output_only == output_only);
        assert(rest.take(comma - start) == s@.subrange(start as int, comma as int));
        assert(parts.body == raw@);
        assert(parts.has_comma == has_comma);
    }
    RawConstraint { output_only, early_clobber, indirect, has_comma, raw }
}

fn has_digits_only(body: &[char]) -> (res: bool)
    ensures
        res == all_digits(body@),
{
    let d = find_class(body, CharClass::NonDigit, 0);
    proof {
        lemma_first_in(body@, CharClass::NonDigit, 0);
        if d == body@.len() {
            assert forall|i: int| 0 <= i < body@.len() implies is_digit(#[trigger] body@[i]) by {
                assert(!in_class(CharClass::NonDigit, body@[i]));
            }
        } else {
            assert(!is_digit(body@[d as int]));
        }
    }
    d == body.len()
}

/// Finds what a constraint body selects.
fn find_operand_class(body: &[char], indirect: bool, arch: Arch) -> (res: Option<(String, bool)>)
    ensures
        match res {
            Some((class, mem_only)) => operand_class(body@, indirect, arch) == Some(
                (class@, mem_only),
            ),
            None => operand_class(body@, indirect, arch) is None,
        },
{
    let k = find_class(body, CharClass::OneOf('m', 'r', 'i'), 0);
    if body.len() == 0 || body[0] == '"' || has_digits_only(body) {
        Some((string_of(body), indirect))
    } else if k < body.len() {
        Some(("reg".to_owned(), indirect || body[k] == 'm'))
    } else {
        let text = string_of(body);
        match translate_machine_constraint(text.as_str(), arch) {
            Some((machine, is_mem)) => Some((machine.to_owned(), indirect || is_mem)),
            None => None,
        }
    }
}

/// What the marks at the front of a constraint string leave, up to a comma.
pub fn constraint_body(constraints: &str) -> (res: Vec<char>)
    ensures
        res@ == constraint_parts(constraints@).body,
{
    take_apart(constraints).raw
}

/// Parse the constraint string of one operand: its direction, whether it is
/// memory only, and the register class, register or index for Rust's `asm!`.
///
/// A constraint string can list several alternatives for one operand (`rK` on
/// RISC-V: any register, or a small immediate), and the compiler may pick any
/// that it can satisfy. `r`, `m` and `i` can always be satisfied, so one of
/// them is taken wherever it stands. A constraint without a known translation
/// is refused: passing the raw letter on could coincide with a register class
/// of another meaning.
pub fn parse_constraints(constraints: &str, arch: Arch) -> (res: TranslationResult<
    (ArgDirSpec, bool, String),
>)
    ensures
        constraint_view(res) == parsed_constraints(constraints@, arch),
{
    let parts = take_apart(constraints);
    if parts.has_comma && !parts.output_only {
        let mut msg = chars_of("Inline assembly constraints could not be parsed: ");
        push_all(&mut msg, parts.raw.as_slice());
        let text = string_of(msg.as_slice());
        return Err(TranslationError::generic(text.as_str()));
    }
    let is_input = !parts.output_only || parts.has_comma;
    let body = quoted_braces(parts.raw.as_slice());
    match find_operand_class(body.as_slice(), parts.indirect, arch) {
        Some((class, mem_only)) => {
            let mode = if mem_only {
                ArgDirSpec::In
            } else {
                match (is_input, parts.early_clobber) {
                    (false, false) => ArgDirSpec::LateOut,
                    (false, true) => ArgDirSpec::Out,
                    (true, false) => ArgDirSpec::InLateOut,
                    (true, true) => ArgDirSpec::InOut,
                }
            };
            Ok((mode, mem_only, class))
        },
        None => {
            let mut msg = chars_of("Inline assembly constraint '");
            push_all(&mut msg, body.as_slice());
            push_text(
                &mut msg,
                "' has no known translation to a Rust asm! operand kind for this target",
            );
            let text = string_of(msg.as_slice());
            Err(TranslationError::generic(text.as_str()))
        },
    }
}

/// The warnings about a constraint string that has no translation.
pub fn constraint_warnings(constraints: &str, arch: Arch) -> (res: Vec<String>)
    ensures
        strings(res@) == warnings_about(constraints@, arch),
{
    let mut notes: Vec<String> = Vec::new();
    let parts = take_apart(constraints);
    let body = quoted_braces(parts.raw.as_slice());
    let refused = !(parts.has_comma && !parts.output_only) && find_operand_class(
        body.as_slice(),
        parts.indirect,
        arch,
    ).is_none();
    if refused {
        if (arch == Arch::X86 || arch == Arch::X86_64) && is_text(body.as_slice(), "U") {
            notes.push(
                "the x86 'U' inline assembly operand constraint cannot be translated correctly. It corresponds to the `clobber_abi` option for `asm!`, but c2rust does not know the ABI being used, so it cannot be translated automatically. Please correct manually after translation.".to_owned(),
            );
        }
        let mut msg = chars_of("Did not recognize inline asm constraint: ");
        push_all(&mut msg, body.as_slice());
        push_text(
            &mut msg,
            "\nThis constraint has no known, safe translation to a Rust asm! register class or operand kind; the containing statement will be translated as an error instead of emitting output that may silently misbehave.",
        );
        notes.push(string_of(msg.as_slice()));
    }
    assert(strings(notes@) =~= warnings_about(constraints@, arch));
    notes
}

/// A parsed constraint that names a register or an index.
pub open spec fn names_register_or_index(class: Seq<char>) -> bool {
    class.contains('"') || (class.len() > 0 && is_digit(class[0]))
}

/// Whether a parsed constraint names an explicit register (it is quoted) or
/// an operand by its index.
pub fn is_regname_or_int(parsed_constraint: &str) -> (res: bool)
    ensures
        res == names_register_or_index(parsed_constraint@),
{
    let cs = chars_of(parsed_constraint);
    contains_char(cs.as_slice(), '"') || (cs.len() > 0 && char_is_digit(cs[0]))
}

/// The register and the template modifier that selects its width, if the
/// constraint is a register that the compiler keeps for itself.
pub open spec fn reserved_register(constraint: Seq<char>, arch: Arch) -> Option<
    (Seq<char>, Seq<char>),
> {
    match arch {
        Arch::X86 => if constraint == "\"esi\""@ {
            Some(("esi"@, "e"@))
        } else if constraint == "\"si\""@ {
            Some(("si"@, ""@))
        } else {
            None
        },
        Arch::X86_64 => if constraint == "\"bl\""@ {
            Some(("bl"@, "l"@))
        } else if constraint == "\"bh\""@ {
            Some(("bh"@, "h"@))
        } else if constraint == "\"bx\""@ {
            Some(("bx"@, "x"@))
        } else if constraint == "\"ebx\""@ {
            Some(("ebx"@, "e"@))
        } else if constraint == "\"rbx\""@ {
            Some(("rbx"@, "r"@))
        } else {
            None
        },
        _ => None,
    }
}

/// Return the register and corresponding template modifiers if the constraint
/// uses a reserved register: `esi` on x86, `rbx` on x86_64.
pub fn reg_is_reserved(constraint: &str, arch: Arch) -> (res: Option<
    (&'static str, &'static str),
>)
    ensures
        match res {
            Some((reg, mods)) => reserved_register(constraint@, arch) == Some((reg@, mods@)),
            None => reserved_register(constraint@, arch) is None,
        },
{
    let cs = chars_of(constraint);
    let c = cs.as_slice();
    match arch {
        Arch::X86 => {
            if is_text(c, "\"esi\"") {
                Some(("esi", "e"))
            } else if is_text(c, "\"si\"") {
                Some(("si", ""))
            } else {
                None
            }
        },
        Arch::X86_64 => {
            if is_text(c, "\"bl\"") {
                Some(("bl", "l"))
            } else if is_text(c, "\"bh\"") {
                Some(("bh", "h"))
            } else if is_text(c, "\"bx\"") {
                Some(("bx", "x"))
            } else if is_text(c, "\"ebx\"") {
                Some(("ebx", "e"))
            } else if is_text(c, "\"rbx\"") {
                Some(("rbx", "r"))
            } else {
                None
            }
        },
        _ => None,
    }
}

/// A memory operand is always passed in, and nothing else is: an operand that
/// is not memory can be written.
pub proof fn law_memory_operands_are_inputs(s: Seq<char>, arch: Arch)
    ensures
        parsed_constraints(s, arch) matches Ok((dir, mem_only, _)) ==> (mem_only <==> dir
            == ArgDirSpec::In),
{
}

/// Wherever `m`, `r` or `i` stands among the alternatives, and no register is
/// named, the operand is put
/// in a general register, on every architecture; it is memory if the first of
/// these letters is `m` or the operand is passed by address.
pub proof fn law_generic_letter_wins(s: Seq<char>, at: int, arch: Arch)
    requires
        ({
            let parts = constraint_parts(s);
            &&& !parts.has_comma || parts.output_only
            &&& 0 <= at < parts.body.len()
            &&& !is_register_or_index(quote_braces(parts.body))
            &&& in_class(generic_letters(), parts.body[at])
            &&& forall|j: int|
                0 <= j < at ==> !in_class(generic_letters(), #[trigger] parts.body[j])
        }),
    ensures
        parsed_constraints(s, arch) matches Ok((_, mem_only, class)) && class == "reg"@ && mem_only
            == (constraint_parts(s).indirect || constraint_parts(s).body[at] == 'm'),
{
    let body = quote_braces(constraint_parts(s).body);
    assert(body[at] == constraint_parts(s).body[at]);
    assert forall|j: int| 0 <= j < at implies !in_class(generic_letters(), #[trigger] body[j]) by {
        assert(!in_class(generic_letters(), constraint_parts(s).body[j]));
    }
    lemma_first_in_unique(body, generic_letters(), 0, at);
}

/// An explicit register is kept, in quotes, whatever letters its name holds.
pub proof fn law_registers_are_kept(s: Seq<char>, arch: Arch)
    requires
        ({
            let parts = constraint_parts(s);
            &&& !parts.has_comma || parts.output_only
            &&& starts_with_char(parts.body, '{')
        }),
    ensures
        parsed_constraints(s, arch) matches Ok((_, mem_only, class)) && class == quote_braces(
            constraint_parts(s).body,
        ) && mem_only == constraint_parts(s).indirect,
{
}

/// An operand that is passed by address is memory, whatever else its constraint
/// says.
pub proof fn law_indirect_operands_are_memory(s: Seq<char>, arch: Arch)
    requires
        constraint_parts(s).indirect,
    ensures
        parsed_constraints(s, arch) matches Ok((dir, mem_only, _)) ==> mem_only && dir
            == ArgDirSpec::In,
{
}

/// A constraint string is warned about only if it is refused.
pub proof fn law_warnings_come_with_errors(s: Seq<char>, arch: Arch)
    ensures
        warnings_about(s, arch).len() > 0 ==> parsed_constraints(s, arch) is Err,
{
}

/// A constraint is never passed on unless it is empty, names a register or an
/// index: what else comes out is the general register class or stands in the
/// table of the machine. What is in neither is refused.
pub proof fn law_no_raw_constraint(s: Seq<char>, arch: Arch)
    ensures
        parsed_constraints(s, arch) matches Ok((_, _, class)) ==> {
            ||| class.len() == 0
            ||| class == "reg"@
            ||| class[0] == '"'
            ||| all_digits(class)
            ||| machine_constraint(quote_braces(constraint_parts(s).body), arch) matches Some((m, _))
                && m == class
        },
{
}

/// A direction that takes an input already stays what it is.
pub proof fn law_with_in_idempotent(dir: ArgDirSpec)
    ensures
        dir_with_in(dir_with_in(dir)) == dir_with_in(dir),
        dir_with_in(dir) != ArgDirSpec::Out && dir_with_in(dir) != ArgDirSpec::LateOut,
{
}

} // verus!
