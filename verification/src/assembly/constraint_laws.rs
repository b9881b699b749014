//! What constraint strings, modifiers, reserved registers and target tuples
//! mean.

use crate::assembly::constraints::{
    all_digits, arch_of, constraint_parts, dir_keyword, dir_with_in, generic_letters,
    machine_constraint, names_register_or_index, operand_class, parsed_constraints, quote_braces,
    reserved_register, rust_modifier, warnings_about, Arch, ArgDirSpec,
};
use crate::assembly::pairing::tie_target;
use crate::errors::ErrorView;
use crate::text::{in_class, is_digit, lemma_first_in_unique, usize_of, CharClass};
use vstd::prelude::*;

verus! {

/// The marks at the front of a constraint string.
pub open spec fn marks(mark: Option<char>, early: bool, indirect: bool) -> Seq<char> {
    (match mark {
        Some(c) => seq![c],
        None => Seq::empty(),
    }) + (if early {
        seq!['&']
    } else {
        Seq::empty()
    }) + (if indirect {
        seq!['*']
    } else {
        Seq::empty()
    })
}

/// The body begins with none of the marks, and lists no second operand.
pub open spec fn is_unmarked(body: Seq<char>) -> bool {
    &&& !body.contains(',')
    &&& body.len() > 0 ==> body[0] != '+' && body[0] != '=' && body[0] != '&' && body[0] != '*'
}

/// The body can stand behind these marks: it does not begin with one that would
/// count there, and lists no second operand.
pub open spec fn can_follow(
    mark: Option<char>,
    early: bool,
    indirect: bool,
    body: Seq<char>,
) -> bool {
    &&& !body.contains(',')
    &&& body.len() > 0 ==> {
        &&& indirect || body[0] != '*'
        &&& early || indirect || body[0] != '&'
        &&& mark is Some || early || indirect || (body[0] != '+' && body[0] != '=')
    }
}

/// The marks are taken off a constraint one by one, each where it counts and at
/// most once, and what stands behind a comma is left out.
pub proof fn law_marks_are_taken_off(
    mark: Option<char>,
    early: bool,
    indirect: bool,
    body: Seq<char>,
    behind: Option<Seq<char>>,
)
    requires
        mark matches Some(c) ==> c == '+' || c == '=',
        can_follow(mark, early, indirect, body),
    ensures
        ({
            let s = marks(mark, early, indirect) + body + (match behind {
                Some(rest) => seq![','] + rest,
                None => Seq::empty(),
            });
            let parts = constraint_parts(s);
            &&& parts.output_only == (mark == Some('='))
            &&& parts.early_clobber == early
            &&& parts.indirect == indirect
            &&& parts.body == body
            &&& parts.has_comma == (behind is Some)
        }),
{
    let tail = body + (match behind {
        Some(rest) => seq![','] + rest,
        None => Seq::empty(),
    });
    let s = marks(mark, early, indirect) + body + (match behind {
        Some(rest) => seq![','] + rest,
        None => Seq::empty(),
    });
    let star = if indirect {
        seq!['*']
    } else {
        Seq::<char>::empty()
    };
    let amp = if early {
        seq!['&']
    } else {
        Seq::<char>::empty()
    };
    let s3 = tail;
    let s2 = star + tail;
    let s1 = amp + s2;
    assert(s =~= (match mark {
        Some(c) => seq![c],
        None => Seq::empty(),
    }) + s1);
    assert(tail.len() > 0 ==> tail[0] == if body.len() > 0 {
        body[0]
    } else {
        ','
    });
    assert(s2.len() > 0 ==> s2[0] == if indirect {
        '*'
    } else {
        tail[0]
    });
    assert(s1.len() > 0 ==> s1[0] == if early {
        '&'
    } else {
        s2[0]
    });
    if mark is Some {
        assert(s.skip(1) =~= s1);
    } else {
        assert(s =~= s1);
    }
    if early {
        assert(s1.skip(1) =~= s2);
    } else {
        assert(s1 =~= s2);
    }
    if indirect {
        assert(s2.skip(1) =~= s3);
    } else {
        assert(s2 =~= s3);
    }
    let n = body.len() as int;
    assert forall|j: int| 0 <= j < n implies !in_class(CharClass::Is(','), #[trigger] s3[j]) by {
        assert(s3[j] == body[j]);
        if body[j] == ',' {
            assert(body.contains(','));
        }
    }
    lemma_first_in_unique(s3, CharClass::Is(','), 0, n);
    assert(s3.take(n) =~= body);
}

/// The marks decide the direction and nothing else. An operand that is memory, or
/// passed by address (`*`), is passed in. Any other is an output, with an input
/// unless it is marked `=`, and written late unless it is marked `&`.
pub proof fn law_marks_give_the_direction(
    mark: Option<char>,
    early: bool,
    indirect: bool,
    body: Seq<char>,
    arch: Arch,
)
    requires
        mark matches Some(c) ==> c == '+' || c == '=',
        is_unmarked(body),
    ensures
        match parsed_constraints(body, arch) {
            Ok((_, is_mem, class)) => parsed_constraints(
                marks(mark, early, indirect) + body,
                arch,
            ) == Ok::<(ArgDirSpec, bool, Seq<char>), ErrorView>(
                (
                    if indirect || is_mem {
                        ArgDirSpec::In
                    } else if mark == Some('=') {
                        if early {
                            ArgDirSpec::Out
                        } else {
                            ArgDirSpec::LateOut
                        }
                    } else {
                        if early {
                            ArgDirSpec::InOut
                        } else {
                            ArgDirSpec::InLateOut
                        }
                    },
                    indirect || is_mem,
                    class,
                ),
            ),
            Err(e) => parsed_constraints(marks(mark, early, indirect) + body, arch) == Err::<
                (ArgDirSpec, bool, Seq<char>),
                ErrorView,
            >(e),
        },
{
    law_marks_are_taken_off(mark, early, indirect, body, None);
    law_marks_are_taken_off(None, false, false, body, None);
    assert(marks(None, false, false) + body + Seq::<char>::empty() =~= body);
    assert(marks(mark, early, indirect) + body + Seq::<char>::empty() =~= marks(
        mark,
        early,
        indirect,
    ) + body);
}

/// An output that also names an input behind a comma is both: it is as if it were
/// marked `+` instead of `=`. Behind any other mark a comma is refused.
pub proof fn law_comma_makes_an_output_an_input(
    early: bool,
    indirect: bool,
    body: Seq<char>,
    behind: Seq<char>,
    arch: Arch,
)
    requires
        is_unmarked(body),
    ensures
        parsed_constraints(marks(Some('='), early, indirect) + body + (seq![','] + behind), arch)
            == parsed_constraints(marks(Some('+'), early, indirect) + body, arch),
        parsed_constraints(marks(Some('+'), early, indirect) + body + (seq![','] + behind), arch)
            is Err,
        parsed_constraints(marks(None, early, indirect) + body + (seq![','] + behind), arch)
            is Err,
{
    law_marks_are_taken_off(Some('='), early, indirect, body, Some(behind));
    law_marks_are_taken_off(Some('+'), early, indirect, body, Some(behind));
    law_marks_are_taken_off(None, early, indirect, body, Some(behind));
    law_marks_are_taken_off(Some('+'), early, indirect, body, None);
    assert(marks(Some('+'), early, indirect) + body + Seq::<char>::empty() =~= marks(
        Some('+'),
        early,
        indirect,
    ) + body);
}

proof fn lemma_unmarked(body: Seq<char>)
    requires
        is_unmarked(body),
    ensures
        ({
            let parts = constraint_parts(body);
            &&& parts.body == body
            &&& !parts.has_comma
            &&& !parts.indirect
        }),
{
    law_marks_are_taken_off(None, false, false, body, None);
    assert(marks(None, false, false) + body + Seq::<char>::empty() =~= body);
}

/// An explicit register in braces comes out in quotes, and an index as it is,
/// whatever letters and digits they are made of.
pub proof fn law_registers_and_indices_stand_for_themselves(
    name: Seq<char>,
    digits: Seq<char>,
    arch: Arch,
)
    requires
        !name.contains(',') && !name.contains('{') && !name.contains('}'),
        digits.len() > 0,
        forall|i: int| 0 <= i < digits.len() ==> is_digit(#[trigger] digits[i]),
    ensures
        parsed_constraints("{"@ + name + "}"@, arch) matches Ok((_, is_mem, class)) && !is_mem
            && class == "\""@ + name + "\""@,
        parsed_constraints(digits, arch) matches Ok((_, is_mem, class)) && !is_mem && class
            == digits,
{
    reveal_strlit("{");
    reveal_strlit("}");
    reveal_strlit("\"");
    let braced = "{"@ + name + "}"@;
    let n = name.len() as int;
    assert(braced[0] == '{');
    assert(!braced.contains(',')) by {
        if braced.contains(',') {
            let j = choose|j: int| 0 <= j < braced.len() && braced[j] == ',';
            if 0 < j <= n {
                assert(name[j - 1] == ',');
                assert(name.contains(','));
            }
        }
    }
    lemma_unmarked(braced);
    let quoted = quote_braces(braced);
    assert forall|j: int| 0 <= j < quoted.len() implies quoted[j] == ("\""@ + name + "\""@)[j] by {
        if 0 < j <= n {
            assert(braced[j] == name[j - 1]);
            assert(name.contains(name[j - 1]));
        }
    }
    assert(quoted =~= "\""@ + name + "\""@);
    assert(!digits.contains(',')) by {
        if digits.contains(',') {
            let j = choose|j: int| 0 <= j < digits.len() && digits[j] == ',';
            assert(is_digit(digits[j]));
        }
    }
    assert(is_digit(digits[0]));
    lemma_unmarked(digits);
    assert forall|j: int| 0 <= j < digits.len() implies quote_braces(digits)[j] == digits[j] by {
        assert(is_digit(digits[j]));
    }
    assert(quote_braces(digits) =~= digits);
}

/// Of several alternatives, the first of `m`, `r` and `i` decides on every
/// architecture: the operand goes into a general register, and is memory exactly
/// if that letter is `m`.
pub proof fn law_generic_alternatives(body: Seq<char>, at: int, arch: Arch)
    requires
        is_unmarked(body),
        0 <= at < body.len(),
        body[at] == 'm' || body[at] == 'r' || body[at] == 'i',
        forall|j: int|
            0 <= j < at ==> #[trigger] body[j] != 'm' && body[j] != 'r' && body[j] != 'i',
        body[0] != '{' && body[0] != '}' && body[0] != '"',
    ensures
        parsed_constraints(body, arch) matches Ok((_, is_mem, class)) && class == "reg"@ && (is_mem
            <==> body[at] == 'm'),
{
    lemma_unmarked(body);
    let quoted = quote_braces(body);
    assert(quoted[at] == body[at]);
    assert(!is_digit(quoted[at]));
    assert(!all_digits(quoted));
    assert forall|j: int| 0 <= j < at implies !in_class(generic_letters(), #[trigger] quoted[j]) by {
        assert(body[j] != 'm' && body[j] != 'r' && body[j] != 'i');
    }
    lemma_first_in_unique(quoted, generic_letters(), 0, at);
}

/// A constraint without one of the generic letters that names no register and no
/// index is one of the machine: it has the class that the machine gives it, and
/// is refused if there is none.
pub proof fn law_machine_constraints(body: Seq<char>, arch: Arch)
    requires
        is_unmarked(body),
        body.len() > 0,
        forall|j: int|
            0 <= j < body.len() ==> #[trigger] body[j] != 'm' && body[j] != 'r' && body[j] != 'i'
                && body[j] != '{' && body[j] != '}' && body[j] != '"',
        exists|j: int| 0 <= j < body.len() && !is_digit(#[trigger] body[j]),
    ensures
        match machine_constraint(body, arch) {
            Some((class, mem)) => parsed_constraints(body, arch) matches Ok((_, is_mem, c)) && c
                == class && is_mem == mem,
            None => parsed_constraints(body, arch) is Err,
        },
{
    lemma_unmarked(body);
    let quoted = quote_braces(body);
    assert forall|j: int| 0 <= j < body.len() implies quoted[j] == body[j] by {
        assert(body[j] != '{');
    }
    assert(quoted =~= body);
    let k = choose|j: int| 0 <= j < body.len() && !is_digit(#[trigger] body[j]);
    assert(!is_digit(quoted[k]));
    assert forall|j: int| 0 <= j < body.len() implies !in_class(
        generic_letters(),
        #[trigger] quoted[j],
    ) by {
        assert(body[j] != 'm' && body[j] != 'r' && body[j] != 'i');
    }
    lemma_first_in_unique(quoted, generic_letters(), 0, body.len() as int);
    assert(body[0] != '"');
}

/// The classes and registers that the constraints of x86 select; none of them is
/// memory, and there are no others.
pub proof fn law_x86_constraints(arch: Arch, c: Seq<char>)
    requires
        arch is X86 || arch is X86_64,
    ensures
        machine_constraint("Q"@, arch) == Some(("reg_abcd"@, false)),
        machine_constraint("q"@, arch) == Some(("reg_byte"@, false)),
        machine_constraint("a"@, arch) == Some(("\"a\""@, false)),
        machine_constraint("b"@, arch) == Some(("\"b\""@, false)),
        machine_constraint("c"@, arch) == Some(("\"c\""@, false)),
        machine_constraint("d"@, arch) == Some(("\"d\""@, false)),
        machine_constraint("S"@, arch) == Some(("\"si\""@, false)),
        machine_constraint("D"@, arch) == Some(("\"di\""@, false)),
        machine_constraint("f"@, arch) == Some(("x87_reg"@, false)),
        machine_constraint("t"@, arch) == Some(("\"st(0)\""@, false)),
        machine_constraint("u"@, arch) == Some(("\"st(1)\""@, false)),
        machine_constraint("x"@, arch) == Some(("xmm_reg"@, false)),
        machine_constraint("y"@, arch) == Some(("mmx_reg"@, false)),
        machine_constraint("v"@, arch) == Some(("zmm_reg"@, false)),
        machine_constraint("Yz"@, arch) == Some(("\"xmm0\""@, false)),
        machine_constraint("Yk"@, arch) == Some(("kreg"@, false)),
        machine_constraint(c, arch) is Some <==> (c == "Q"@ || c == "q"@ || c == "a"@ || c == "b"@ || c == "c"@ || c == "d"@ || c == "S"@ || c == "D"@ || c == "f"@ || c == "t"@ || c == "u"@ || c == "x"@ || c == "y"@ || c == "v"@ || c == "Yz"@ || c == "Yk"@),
{
    reveal_strlit("D");
    reveal_strlit("Q");
    reveal_strlit("S");
    reveal_strlit("Yk");
    reveal_strlit("Yz");
    reveal_strlit("a");
    reveal_strlit("b");
    reveal_strlit("c");
    reveal_strlit("d");
    reveal_strlit("f");
    reveal_strlit("q");
    reveal_strlit("t");
    reveal_strlit("u");
    reveal_strlit("v");
    reveal_strlit("x");
    reveal_strlit("y");
    assert("D"@.len() == 1 && "D"@[0] == 'D');
    assert("Q"@.len() == 1 && "Q"@[0] == 'Q');
    assert("S"@.len() == 1 && "S"@[0] == 'S');
    assert("Yk"@.len() == 2 && "Yk"@[0] == 'Y' && "Yk"@[1] == 'k');
    assert("Yz"@.len() == 2 && "Yz"@[0] == 'Y' && "Yz"@[1] == 'z');
    assert("a"@.len() == 1 && "a"@[0] == 'a');
    assert("b"@.len() == 1 && "b"@[0] == 'b');
    assert("c"@.len() == 1 && "c"@[0] == 'c');
    assert("d"@.len() == 1 && "d"@[0] == 'd');
    assert("f"@.len() == 1 && "f"@[0] == 'f');
    assert("q"@.len() == 1 && "q"@[0] == 'q');
    assert("t"@.len() == 1 && "t"@[0] == 't');
    assert("u"@.len() == 1 && "u"@[0] == 'u');
    assert("v"@.len() == 1 && "v"@[0] == 'v');
    assert("x"@.len() == 1 && "x"@[0] == 'x');
    assert("y"@.len() == 1 && "y"@[0] == 'y');
}

/// The classes and registers that the constraints of the Arm architectures and of
/// RISC-V select, which of them are memory, and that there are no others.
pub proof fn law_other_constraints(c: Seq<char>)
    ensures
        machine_constraint("k"@, Arch::Aarch64) == Some(("\"SP\""@, false)),
        machine_constraint("w"@, Arch::Aarch64) == Some(("vreg"@, false)),
        machine_constraint("x"@, Arch::Aarch64) == Some(("vreg_low16"@, false)),
        machine_constraint("Upa"@, Arch::Aarch64) == Some(("preg"@, false)),
        machine_constraint("Q"@, Arch::Aarch64) == Some(("reg"@, true)),
        machine_constraint("Ump"@, Arch::Aarch64) == Some(("reg"@, true)),
        machine_constraint(c, Arch::Aarch64) is Some <==> (c == "k"@ || c == "w"@ || c == "x"@ || c == "Upa"@ || c == "Q"@ || c == "Ump"@),
        machine_constraint("k"@, Arch::Arm) == Some(("\"SP\""@, false)),
        machine_constraint("l"@, Arch::Arm) == Some(("reg"@, false)),
        machine_constraint("t"@, Arch::Arm) == Some(("sreg"@, false)),
        machine_constraint("x"@, Arch::Arm) == Some(("sreg_low16"@, false)),
        machine_constraint("w"@, Arch::Arm) == Some(("dreg"@, false)),
        machine_constraint("Q"@, Arch::Arm) == Some(("reg"@, true)),
        machine_constraint("Uv"@, Arch::Arm) == Some(("reg"@, true)),
        machine_constraint("Uy"@, Arch::Arm) == Some(("reg"@, true)),
        machine_constraint("Uq"@, Arch::Arm) == Some(("reg"@, true)),
        machine_constraint(c, Arch::Arm) is Some <==> (c == "k"@ || c == "l"@ || c == "t"@ || c == "x"@ || c == "w"@ || c == "Q"@ || c == "Uv"@ || c == "Uy"@ || c == "Uq"@),
        machine_constraint("f"@, Arch::Riscv) == Some(("freg"@, false)),
        machine_constraint("A"@, Arch::Riscv) == Some(("reg"@, true)),
        machine_constraint(c, Arch::Riscv) is Some <==> (c == "f"@ || c == "A"@),
{
    reveal_strlit("A");
    reveal_strlit("Q");
    reveal_strlit("Ump");
    reveal_strlit("Upa");
    reveal_strlit("Uq");
    reveal_strlit("Uv");
    reveal_strlit("Uy");
    reveal_strlit("f");
    reveal_strlit("k");
    reveal_strlit("l");
    reveal_strlit("t");
    reveal_strlit("w");
    reveal_strlit("x");
    assert("A"@.len() == 1 && "A"@[0] == 'A');
    assert("Q"@.len() == 1 && "Q"@[0] == 'Q');
    assert("Ump"@.len() == 3 && "Ump"@[0] == 'U' && "Ump"@[1] == 'm' && "Ump"@[2] == 'p');
    assert("Upa"@.len() == 3 && "Upa"@[0] == 'U' && "Upa"@[1] == 'p' && "Upa"@[2] == 'a');
    assert("Uq"@.len() == 2 && "Uq"@[0] == 'U' && "Uq"@[1] == 'q');
    assert("Uv"@.len() == 2 && "Uv"@[0] == 'U' && "Uv"@[1] == 'v');
    assert("Uy"@.len() == 2 && "Uy"@[0] == 'U' && "Uy"@[1] == 'y');
    assert("f"@.len() == 1 && "f"@[0] == 'f');
    assert("k"@.len() == 1 && "k"@[0] == 'k');
    assert("l"@.len() == 1 && "l"@[0] == 'l');
    assert("t"@.len() == 1 && "t"@[0] == 't');
    assert("w"@.len() == 1 && "w"@[0] == 'w');
    assert("x"@.len() == 1 && "x"@[0] == 'x');
}

/// On x86 the width modifiers have counterparts and no others do; on the other
/// architectures a modifier stays what it is, but for `p` and `q` on Arm and `z`
/// on RISC-V, which go.
pub proof fn law_modifiers(c: char, arch: Arch)
    ensures
        arch is X86 || arch is X86_64 ==> {
            &&& rust_modifier('k', arch) == Some('e')
            &&& rust_modifier('q', arch) == Some('r')
            &&& rust_modifier('b', arch) == Some('l')
            &&& rust_modifier('h', arch) == Some('h')
            &&& rust_modifier('w', arch) == Some('x')
            &&& rust_modifier(c, arch) is Some <==> c == 'k' || c == 'q' || c == 'b' || c == 'h'
                || c == 'w'
        },
        rust_modifier(c, Arch::Aarch64) == Some(c),
        rust_modifier(c, Arch::Arm) == if c == 'p' || c == 'q' {
            None
        } else {
            Some(c)
        },
        rust_modifier(c, Arch::Riscv) == if c == 'z' {
            None
        } else {
            Some(c)
        },
{
}

/// The reserved registers are those that hold `bx` on x86_64, and `si` on x86, in
/// quotes. The modifier is what selects the width: the letter before `bx`, or
/// behind `b`, or before `si`.
pub proof fn law_reserved_registers(constraint: Seq<char>, arch: Arch)
    ensures
        reserved_register(constraint, arch) matches Some((reg, mods)) ==> {
            &&& constraint == "\""@ + reg + "\""@
            &&& arch is X86_64 ==> reg == if reg.len() == 2 {
                "b"@ + mods
            } else {
                mods + "bx"@
            }
            &&& arch is X86 ==> reg == mods + "si"@
            &&& arch is X86 || arch is X86_64
        },
        reserved_register(constraint, Arch::X86_64) is Some <==> constraint == "\"bl\""@ || constraint
            == "\"bh\""@ || constraint == "\"bx\""@ || constraint == "\"ebx\""@ || constraint
            == "\"rbx\""@,
        reserved_register(constraint, Arch::X86) is Some <==> constraint == "\"esi\""@ || constraint
            == "\"si\""@,
{
    reveal_strlit("\"");
    reveal_strlit("\"bl\"");
    reveal_strlit("\"bh\"");
    reveal_strlit("\"bx\"");
    reveal_strlit("\"ebx\"");
    reveal_strlit("\"rbx\"");
    reveal_strlit("\"esi\"");
    reveal_strlit("\"si\"");
    reveal_strlit("bl");
    reveal_strlit("bh");
    reveal_strlit("bx");
    reveal_strlit("ebx");
    reveal_strlit("rbx");
    reveal_strlit("esi");
    reveal_strlit("si");
    reveal_strlit("b");
    reveal_strlit("l");
    reveal_strlit("h");
    reveal_strlit("x");
    reveal_strlit("e");
    reveal_strlit("r");
    reveal_strlit("");
    if let Some((reg, mods)) = reserved_register(constraint, arch) {
        assert(constraint =~= "\""@ + reg + "\""@);
        if arch is X86 {
            assert(reg =~= mods + "si"@);
        } else if reg.len() == 2 {
            assert(reg =~= "b"@ + mods);
        } else {
            assert(reg =~= mods + "bx"@);
        }
    }
}

/// A direction is written as what it is made of: `in`, `out`, `late`. Taking an
/// input as well puts `in` before a direction that had none.
pub proof fn law_directions_are_written_out(dir: ArgDirSpec)
    ensures
        dir_keyword(ArgDirSpec::In) == "in"@,
        dir_keyword(ArgDirSpec::Out) == "out"@,
        dir_keyword(ArgDirSpec::LateOut) == "late"@ + dir_keyword(ArgDirSpec::Out),
        dir_keyword(ArgDirSpec::InOut) == "in"@ + dir_keyword(ArgDirSpec::Out),
        dir_keyword(ArgDirSpec::InLateOut) == "in"@ + dir_keyword(ArgDirSpec::LateOut),
        dir_keyword(dir_with_in(dir)) == if dir is Out || dir is LateOut {
            "in"@ + dir_keyword(dir)
        } else {
            dir_keyword(dir)
        },
{
    reveal_strlit("in");
    reveal_strlit("out");
    reveal_strlit("late");
    reveal_strlit("lateout");
    reveal_strlit("inout");
    reveal_strlit("inlateout");
    assert("late"@ + "out"@ =~= "lateout"@);
    assert("in"@ + "out"@ =~= "inout"@);
    assert("in"@ + "lateout"@ =~= "inlateout"@);
}

proof fn lemma_begins(prefix: Seq<char>, rest: Seq<char>)
    ensures
        prefix.is_prefix_of(prefix + rest),
{
    assert(prefix =~= (prefix + rest).subrange(0, prefix.len() as int));
}

/// A target tuple is of the architecture that it begins with the name of,
/// whatever follows.
pub proof fn law_targets(rest: Seq<char>)
    ensures
        arch_of("x86_64"@ + rest) == Some(Arch::X86_64),
        arch_of("i386"@ + rest) == Some(Arch::X86),
        arch_of("i486"@ + rest) == Some(Arch::X86),
        arch_of("i586"@ + rest) == Some(Arch::X86),
        arch_of("i686"@ + rest) == Some(Arch::X86),
        rest.len() == 0 || rest[0] != '_' ==> arch_of("x86"@ + rest) == Some(Arch::X86),
        arch_of("aarch64"@ + rest) == Some(Arch::Aarch64),
        arch_of("armv8"@ + rest) == Some(Arch::Aarch64),
        arch_of("arm64"@ + rest) == Some(Arch::Aarch64),
        rest.len() == 0 || (rest[0] != 'v' && rest[0] != '6') ==> arch_of("arm"@ + rest) == Some(
            Arch::Arm,
        ),
        rest.len() == 0 || rest[0] != '8' ==> arch_of("armv"@ + rest) == Some(Arch::Arm),
        arch_of("thumbv"@ + rest) == Some(Arch::Arm),
        arch_of("riscv"@ + rest) == Some(Arch::Riscv),
        rest.len() == 0 || (rest[0] != 'x' && rest[0] != 'i' && rest[0] != 'a' && rest[0] != 't'
            && rest[0] != 'r') ==> arch_of(rest) is None,
{
    lemma_first_letters();
    lemma_begins("x86_64"@, rest);
    lemma_begins("i386"@, rest);
    lemma_begins("i486"@, rest);
    lemma_begins("i586"@, rest);
    lemma_begins("i686"@, rest);
    lemma_begins("x86"@, rest);
    lemma_begins("aarch64"@, rest);
    lemma_begins("armv8"@, rest);
    lemma_begins("arm64"@, rest);
    lemma_begins("arm"@, rest);
    lemma_begins("armv"@, rest);
    lemma_begins("thumbv"@, rest);
    lemma_begins("riscv"@, rest);
    lemma_prefix_chars("x86"@ + rest);
    lemma_prefix_chars("x86_64"@ + rest);
    lemma_prefix_chars("i386"@ + rest);
    lemma_prefix_chars("i486"@ + rest);
    lemma_prefix_chars("i586"@ + rest);
    lemma_prefix_chars("i686"@ + rest);
    lemma_prefix_chars("aarch64"@ + rest);
    lemma_prefix_chars("armv8"@ + rest);
    lemma_prefix_chars("arm64"@ + rest);
    lemma_prefix_chars("arm"@ + rest);
    lemma_prefix_chars("armv"@ + rest);
    lemma_prefix_chars("thumbv"@ + rest);
    lemma_prefix_chars("riscv"@ + rest);
    lemma_prefix_chars(rest);
    reveal_strlit("x86");
    reveal_strlit("arm");
    reveal_strlit("armv");
    assert("arm"@.is_prefix_of("armv"@ + rest)) by {
        assert("arm"@ =~= ("armv"@ + rest).subrange(0, 3));
    }
    assert(rest.len() > 0 ==> ("x86"@ + rest)[3] == rest[0]);
    assert(rest.len() > 0 ==> ("arm"@ + rest)[3] == rest[0]);
    assert(rest.len() > 0 ==> ("armv"@ + rest)[4] == rest[0]);
}

/// A target tuple is of one of the architectures exactly if it begins with one of
/// their names, and the longest name that it begins with decides.
pub proof fn law_targets_by_prefix(t: Seq<char>)
    ensures
        "x86"@.is_prefix_of(t) ==> arch_of(t) == if "x86_64"@.is_prefix_of(t) {
            Some(Arch::X86_64)
        } else {
            Some(Arch::X86)
        },
        "arm"@.is_prefix_of(t) ==> arch_of(t) == if "armv8"@.is_prefix_of(t)
            || "arm64"@.is_prefix_of(t) {
            Some(Arch::Aarch64)
        } else {
            Some(Arch::Arm)
        },
        arch_of(t) is Some ==> {
            ||| "x86"@.is_prefix_of(t)
            ||| "i386"@.is_prefix_of(t)
            ||| "i486"@.is_prefix_of(t)
            ||| "i586"@.is_prefix_of(t)
            ||| "i686"@.is_prefix_of(t)
            ||| "arm"@.is_prefix_of(t)
            ||| "aarch64"@.is_prefix_of(t)
            ||| "thumbv"@.is_prefix_of(t)
            ||| "riscv"@.is_prefix_of(t)
        },
{
    reveal_strlit("x86");
    reveal_strlit("x86_64");
    reveal_strlit("arm");
    reveal_strlit("armv8");
    reveal_strlit("arm64");
    lemma_prefix_chars(t);
    if "x86_64"@.is_prefix_of(t) {
        assert("x86"@ =~= "x86_64"@.subrange(0, 3));
        assert("x86"@ =~= t.subrange(0, 3)) by {
            assert(t.subrange(0, 6) =~= "x86_64"@);
        }
    }
    if "armv8"@.is_prefix_of(t) {
        assert("arm"@ =~= "armv8"@.subrange(0, 3));
        assert("arm"@ =~= t.subrange(0, 3)) by {
            assert(t.subrange(0, 5) =~= "armv8"@);
        }
    }
    if "arm64"@.is_prefix_of(t) {
        assert("arm"@ =~= "arm64"@.subrange(0, 3));
        assert("arm"@ =~= t.subrange(0, 3)) by {
            assert(t.subrange(0, 5) =~= "arm64"@);
        }
    }
}

/// What a text has at its front if it begins with one of the names.
proof fn lemma_prefix_chars(t: Seq<char>)
    ensures
        "x86_64"@.is_prefix_of(t) ==> t.len() >= 6 && t[0] == 'x' && t[3] == '_',
        "x86"@.is_prefix_of(t) ==> t.len() >= 3 && t[0] == 'x',
        "i386"@.is_prefix_of(t) ==> t.len() >= 4 && t[0] == 'i' && t[1] == '3',
        "i486"@.is_prefix_of(t) ==> t.len() >= 4 && t[0] == 'i' && t[1] == '4',
        "i586"@.is_prefix_of(t) ==> t.len() >= 4 && t[0] == 'i' && t[1] == '5',
        "i686"@.is_prefix_of(t) ==> t.len() >= 4 && t[0] == 'i' && t[1] == '6',
        "aarch64"@.is_prefix_of(t) ==> t.len() >= 7 && t[0] == 'a' && t[1] == 'a',
        "armv8"@.is_prefix_of(t) ==> t.len() >= 5 && t[0] == 'a' && t[1] == 'r' && t[3] == 'v'
            && t[4] == '8',
        "arm64"@.is_prefix_of(t) ==> t.len() >= 5 && t[0] == 'a' && t[1] == 'r' && t[3] == '6',
        "arm"@.is_prefix_of(t) ==> t.len() >= 3 && t[0] == 'a' && t[1] == 'r',
        "thumbv"@.is_prefix_of(t) ==> t.len() >= 6 && t[0] == 't',
        "riscv"@.is_prefix_of(t) ==> t.len() >= 5 && t[0] == 'r',
{
    lemma_first_letters();
    lemma_at_front("x86_64"@, t);
    lemma_at_front("x86"@, t);
    lemma_at_front("i386"@, t);
    lemma_at_front("i486"@, t);
    lemma_at_front("i586"@, t);
    lemma_at_front("i686"@, t);
    lemma_at_front("aarch64"@, t);
    lemma_at_front("armv8"@, t);
    lemma_at_front("arm64"@, t);
    lemma_at_front("arm"@, t);
    lemma_at_front("thumbv"@, t);
    lemma_at_front("riscv"@, t);
}

proof fn lemma_at_front(prefix: Seq<char>, t: Seq<char>)
    ensures
        prefix.is_prefix_of(t) ==> t.len() >= prefix.len() && forall|j: int|
            0 <= j < prefix.len() ==> #[trigger] t[j] == prefix[j],
{
    if prefix.is_prefix_of(t) {
        assert(prefix == t.subrange(0, prefix.len() as int));
        assert forall|j: int| 0 <= j < prefix.len() implies #[trigger] t[j] == prefix[j] by {
            assert(t.subrange(0, prefix.len() as int)[j] == t[j]);
        }
    }
}

proof fn lemma_first_letters()
    ensures
        "x86_64"@.len() == 6 && "x86_64"@[0] == 'x' && "x86_64"@[3] == '_',
        "x86"@.len() == 3 && "x86"@[0] == 'x',
        "i386"@.len() == 4 && "i386"@[0] == 'i' && "i386"@[1] == '3',
        "i486"@.len() == 4 && "i486"@[0] == 'i' && "i486"@[1] == '4',
        "i586"@.len() == 4 && "i586"@[0] == 'i' && "i586"@[1] == '5',
        "i686"@.len() == 4 && "i686"@[0] == 'i' && "i686"@[1] == '6',
        "aarch64"@.len() == 7 && "aarch64"@[0] == 'a' && "aarch64"@[1] == 'a',
        "armv8"@.len() == 5 && "armv8"@[0] == 'a' && "armv8"@[1] == 'r' && "armv8"@[3] == 'v'
            && "armv8"@[4] == '8',
        "arm64"@.len() == 5 && "arm64"@[0] == 'a' && "arm64"@[1] == 'r' && "arm64"@[3] == '6',
        "arm"@.len() == 3 && "arm"@[0] == 'a' && "arm"@[1] == 'r',
        "armv"@.len() == 4 && "armv"@[0] == 'a' && "armv"@[1] == 'r' && "armv"@[3] == 'v',
        "thumbv"@.len() == 6 && "thumbv"@[0] == 't',
        "riscv"@.len() == 5 && "riscv"@[0] == 'r',
{
    reveal_strlit("x86_64");
    reveal_strlit("x86");
    reveal_strlit("i386");
    reveal_strlit("i486");
    reveal_strlit("i586");
    reveal_strlit("i686");
    reveal_strlit("aarch64");
    reveal_strlit("armv8");
    reveal_strlit("arm64");
    reveal_strlit("arm");
    reveal_strlit("armv");
    reveal_strlit("thumbv");
    reveal_strlit("riscv");
}

/// The marks do not change what an input is tied to: the output whose index
/// stands behind them.
pub proof fn law_marks_do_not_change_ties(
    mark: Option<char>,
    early: bool,
    indirect: bool,
    body: Seq<char>,
)
    requires
        mark matches Some(c) ==> c == '+' || c == '=',
        is_unmarked(body),
    ensures
        tie_target(marks(mark, early, indirect) + body) == usize_of(body),
{
    law_marks_are_taken_off(mark, early, indirect, body, None);
    assert(marks(mark, early, indirect) + body + Seq::<char>::empty() =~= marks(
        mark,
        early,
        indirect,
    ) + body);
}

/// What a parsed constraint names is an explicit register or an index exactly if
/// it holds a quote or begins with a digit.
pub proof fn law_registers_have_quotes(class: Seq<char>)
    ensures
        names_register_or_index(class) <==> (exists|i: int|
            0 <= i < class.len() && #[trigger] class[i] == '"') || (class.len() > 0
            && '0' <= class[0] && class[0] <= '9'),
{
    if class.contains('"') {
        let i = choose|i: int| 0 <= i < class.len() && class[i] == '"';
        assert(class[i] == '"');
    }
}

/// A constraint of the machine without a translation is refused and warned about,
/// each with the constraint in the text, and with one more note if it is the `U`
/// of x86. What is not refused is not warned about, and neither is a comma.
pub proof fn law_refused_constraints_are_named(s: Seq<char>, arch: Arch)
    ensures
        ({
            let parts = constraint_parts(s);
            let body = quote_braces(parts.body);
            let is_x86 = arch == Arch::X86 || arch == Arch::X86_64;
            &&& parsed_constraints(s, arch) is Ok ==> warnings_about(s, arch).len() == 0
            &&& parsed_constraints(s, arch) matches Err(e) ==> if parts.has_comma
                && !parts.output_only {
                &&& e.cause == Some(
                    "Inline assembly constraints could not be parsed: "@ + parts.body,
                )
                &&& warnings_about(s, arch).len() == 0
            } else {
                &&& e.cause == Some(
                    "Inline assembly constraint '"@ + body
                        + "' has no known translation to a Rust asm! operand kind for this target"@,
                )
                &&& warnings_about(s, arch).last() == "Did not recognize inline asm constraint: "@
                    + body
                    + "\nThis constraint has no known, safe translation to a Rust asm! register class or operand kind; the containing statement will be translated as an error instead of emitting output that may silently misbehave."@
                &&& warnings_about(s, arch).len() == if is_x86 && body == "U"@ {
                    2nat
                } else {
                    1nat
                }
                &&& is_x86 && body == "U"@ ==> warnings_about(s, arch)[0]
                    == "the x86 'U' inline assembly operand constraint cannot be translated correctly. It corresponds to the `clobber_abi` option for `asm!`, but c2rust does not know the ABI being used, so it cannot be translated automatically. Please correct manually after translation."@
            }
        }),
{
}

/// A constraint that is nothing but marks names nothing, and is memory only if it
/// is passed by address.
pub proof fn law_nothing_but_marks(
    mark: Option<char>,
    early: bool,
    indirect: bool,
    arch: Arch,
)
    requires
        mark matches Some(c) ==> c == '+' || c == '=',
    ensures
        parsed_constraints(marks(mark, early, indirect), arch) matches Ok((_, is_mem, class))
            && class.len() == 0 && is_mem == indirect,
{
    let none = Seq::<char>::empty();
    law_marks_give_the_direction(mark, early, indirect, none, arch);
    lemma_unmarked(none);
    assert(quote_braces(none) =~= none);
    assert(marks(mark, early, indirect) + none =~= marks(mark, early, indirect));
}

/// What a constraint means follows from its parts: the body selects the operand,
/// and the marks the direction of one that is not memory.
pub proof fn law_parts_decide(s: Seq<char>, arch: Arch)
    ensures
        ({
            let parts = constraint_parts(s);
            let selected = operand_class(quote_braces(parts.body), parts.indirect, arch);
            let is_input = !parts.output_only || parts.has_comma;
            &&& parsed_constraints(s, arch) is Ok <==> selected is Some && (parts.output_only
                || !parts.has_comma)
            &&& parsed_constraints(s, arch) matches Ok((dir, mem, class)) ==> {
                &&& selected == Some((class, mem))
                &&& mem <==> dir == ArgDirSpec::In
                &&& !mem && is_input && parts.early_clobber ==> dir == ArgDirSpec::InOut
                &&& !mem && is_input && !parts.early_clobber ==> dir == ArgDirSpec::InLateOut
                &&& !mem && !is_input && parts.early_clobber ==> dir == ArgDirSpec::Out
                &&& !mem && !is_input && !parts.early_clobber ==> dir == ArgDirSpec::LateOut
            }
        }),
{
}

/// What a body selects. Nothing, a quoted register, and digits stand for
/// themselves; of anything else the first of `m`, `r` and `i` decides, and the
/// machine where there is none of them. What is passed by address is memory.
pub proof fn law_bodies_select_operands(body: Seq<char>, at: int, indirect: bool, arch: Arch)
    ensures
        ({
            let selected = operand_class(body, indirect, arch);
            let stands = body.len() == 0 || body[0] == '"' || forall|i: int|
                0 <= i < body.len() ==> '0' <= #[trigger] body[i] && body[i] <= '9';
            let is_first = 0 <= at < body.len() && (body[at] == 'm' || body[at] == 'r' || body[at]
                == 'i') && forall|j: int|
                0 <= j < at ==> #[trigger] body[j] != 'm' && body[j] != 'r' && body[j] != 'i';
            let has_none = forall|j: int|
                0 <= j < body.len() ==> #[trigger] body[j] != 'm' && body[j] != 'r' && body[j]
                    != 'i';
            &&& stands ==> selected == Some((body, indirect))
            &&& !stands && is_first ==> selected == Some(("reg"@, indirect || body[at] == 'm'))
            &&& !stands && has_none ==> selected == match machine_constraint(body, arch) {
                Some((class, mem)) => Some((class, indirect || mem)),
                None => None,
            }
        }),
{
    let class = generic_letters();
    let stands = body.len() == 0 || body[0] == '"' || forall|i: int|
        0 <= i < body.len() ==> '0' <= #[trigger] body[i] && body[i] <= '9';
    let is_first = 0 <= at < body.len() && (body[at] == 'm' || body[at] == 'r' || body[at] == 'i')
        && forall|j: int|
        0 <= j < at ==> #[trigger] body[j] != 'm' && body[j] != 'r' && body[j] != 'i';
    let has_none = forall|j: int|
        0 <= j < body.len() ==> #[trigger] body[j] != 'm' && body[j] != 'r' && body[j] != 'i';
    assert(all_digits(body) == forall|i: int|
        0 <= i < body.len() ==> '0' <= #[trigger] body[i] && body[i] <= '9') by {
        if all_digits(body) {
            assert forall|i: int| 0 <= i < body.len() implies '0' <= #[trigger] body[i] && body[i]
                <= '9' by {
                assert(is_digit(body[i]));
            }
        }
    }
    if is_first {
        assert forall|j: int| 0 <= j < at implies !in_class(class, #[trigger] body[j]) by {
            assert(body[j] != 'm' && body[j] != 'r' && body[j] != 'i');
        }
        lemma_first_in_unique(body, class, 0, at);
    }
    if has_none {
        assert forall|j: int| 0 <= j < body.len() implies !in_class(class, #[trigger] body[j]) by {
            assert(body[j] != 'm' && body[j] != 'r' && body[j] != 'i');
        }
        lemma_first_in_unique(body, class, 0, body.len() as int);
    }
}

/// Braces become quotes, and nothing else changes.
pub proof fn law_braces_become_quotes(s: Seq<char>)
    ensures
        quote_braces(s).len() == s.len(),
        forall|i: int|
            0 <= i < s.len() ==> #[trigger] quote_braces(s)[i] == if s[i] == '{' || s[i] == '}' {
                '"'
            } else {
                s[i]
            },
{
}

} // verus!
