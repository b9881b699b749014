use c2rust_transpile::assembly::constraints::{
    constraint_warnings, is_regname_or_int, parse_arch, parse_constraints, reg_is_reserved,
    translate_machine_constraint, translate_modifier, Arch, ArgDirSpec,
};
use c2rust_transpile::errors::TranslationErrorKind;

fn parsed(s: &str, arch: Arch) -> (ArgDirSpec, bool, String) {
    match parse_constraints(s, arch) {
        Ok(p) => p,
        Err(e) => panic!("{:?}", e),
    }
}

fn refused(s: &str, arch: Arch) -> String {
    match parse_constraints(s, arch) {
        Ok(p) => panic!("{:?}", p),
        Err(e) => {
            assert_eq!(e.kind(), TranslationErrorKind::Generic);
            e.cause().unwrap().clone()
        }
    }
}

#[test]
fn target_tuples_name_architectures() {
    assert_eq!(parse_arch("x86_64-unknown-linux-gnu"), Some(Arch::X86_64));
    for t in ["i386-pc", "i486", "i586-x", "i686-linux", "x86"] {
        assert_eq!(parse_arch(t), Some(Arch::X86));
    }
    for t in ["aarch64-linux", "armv8-x", "arm64-apple-darwin"] {
        assert_eq!(parse_arch(t), Some(Arch::Aarch64));
    }
    for t in ["armv7-linux", "arm", "thumbv7em"] {
        assert_eq!(parse_arch(t), Some(Arch::Arm));
    }
    assert_eq!(parse_arch("riscv64gc"), Some(Arch::Riscv));
    assert_eq!(parse_arch("mips"), None);
    assert_eq!(parse_arch(""), None);
}

#[test]
fn directions_follow_the_marks() {
    let x = Arch::X86_64;
    assert_eq!(parsed("=r", x), (ArgDirSpec::LateOut, false, "reg".to_string()));
    assert_eq!(parsed("=&r", x), (ArgDirSpec::Out, false, "reg".to_string()));
    assert_eq!(parsed("+r", x), (ArgDirSpec::InLateOut, false, "reg".to_string()));
    assert_eq!(parsed("+&r", x), (ArgDirSpec::InOut, false, "reg".to_string()));
    assert_eq!(parsed("r", x), (ArgDirSpec::InLateOut, false, "reg".to_string()));
    assert_eq!(parsed("=r,0", x), (ArgDirSpec::InLateOut, false, "reg".to_string()));
}

#[test]
fn memory_operands_take_their_address_in() {
    let x = Arch::X86_64;
    assert_eq!(parsed("m", x), (ArgDirSpec::In, true, "reg".to_string()));
    assert_eq!(parsed("=*m", x), (ArgDirSpec::In, true, "reg".to_string()));
    assert_eq!(parsed("=*r", x), (ArgDirSpec::In, true, "reg".to_string()));
    assert_eq!(parsed("=*q", x), (ArgDirSpec::In, true, "reg_byte".to_string()));
    assert_eq!(parsed("=q", x), (ArgDirSpec::LateOut, false, "reg_byte".to_string()));
    assert_eq!(parsed("A", Arch::Riscv), (ArgDirSpec::In, true, "reg".to_string()));
}

#[test]
fn generic_letters_win_over_restrictive_ones() {
    assert_eq!(parsed("rK", Arch::Riscv).2, "reg");
    assert_eq!(parsed("Jr", Arch::Riscv).2, "reg");
    assert_eq!(parsed("i", Arch::Arm).2, "reg");
}

#[test]
fn registers_and_indices_stay() {
    let x = Arch::X86_64;
    assert_eq!(parsed("={ax}", x), (ArgDirSpec::LateOut, false, "\"ax\"".to_string()));
    assert_eq!(parsed("={rbx}", x), (ArgDirSpec::LateOut, false, "\"rbx\"".to_string()));
    assert_eq!(parsed("{r8}", x), (ArgDirSpec::InLateOut, false, "\"r8\"".to_string()));
    assert_eq!(parsed("{rdi}", x).2, "\"rdi\"");
    assert_eq!(parsed("{esi}", Arch::X86).2, "\"esi\"");
    assert_eq!(parsed("0", x), (ArgDirSpec::InLateOut, false, "0".to_string()));
    assert_eq!(parsed("", x), (ArgDirSpec::InLateOut, false, "".to_string()));
    assert_eq!(parsed("=a", x).2, "\"a\"");
    assert!(is_regname_or_int("\"ax\""));
    assert!(is_regname_or_int("12"));
    assert!(!is_regname_or_int("reg"));
    assert!(!is_regname_or_int(""));
}

#[test]
fn constraints_without_meaning_are_refused() {
    assert_eq!(
        refused("K", Arch::Riscv),
        "Inline assembly constraint 'K' has no known translation to a Rust asm! operand kind for this target"
    );
    assert_eq!(
        refused("+r,0", Arch::X86),
        "Inline assembly constraints could not be parsed: r"
    );
}

#[test]
fn machine_constraints_by_architecture() {
    assert_eq!(translate_machine_constraint("Q", Arch::X86), Some(("reg_abcd", false)));
    assert_eq!(translate_machine_constraint("Yz", Arch::X86_64), Some(("\"xmm0\"", false)));
    assert_eq!(translate_machine_constraint("Q", Arch::Aarch64), Some(("reg", true)));
    assert_eq!(translate_machine_constraint("Uy", Arch::Arm), Some(("reg", true)));
    assert_eq!(translate_machine_constraint("f", Arch::Riscv), Some(("freg", false)));
    assert_eq!(translate_machine_constraint("zz", Arch::Arm), None);
}

#[test]
fn modifiers_by_architecture() {
    let x = Arch::X86_64;
    let got: Vec<Option<char>> = "kqbhwz".chars().map(|c| translate_modifier(c, x)).collect();
    assert_eq!(got, vec![Some('e'), Some('r'), Some('l'), Some('h'), Some('x'), None]);
    assert_eq!(translate_modifier('w', Arch::Aarch64), Some('w'));
    assert_eq!(translate_modifier('p', Arch::Arm), None);
    assert_eq!(translate_modifier('e', Arch::Arm), Some('e'));
    assert_eq!(translate_modifier('z', Arch::Riscv), None);
}

#[test]
fn reserved_registers() {
    assert_eq!(reg_is_reserved("\"esi\"", Arch::X86), Some(("esi", "e")));
    assert_eq!(reg_is_reserved("\"si\"", Arch::X86), Some(("si", "")));
    assert_eq!(reg_is_reserved("\"rbx\"", Arch::X86_64), Some(("rbx", "r")));
    assert_eq!(reg_is_reserved("\"bl\"", Arch::X86_64), Some(("bl", "l")));
    assert_eq!(reg_is_reserved("\"esi\"", Arch::X86_64), None);
    assert_eq!(reg_is_reserved("\"rbx\"", Arch::Arm), None);
}

#[test]
fn directions_are_written_and_widened() {
    assert_eq!(ArgDirSpec::InLateOut.keyword(), "inlateout");
    assert_eq!(ArgDirSpec::Out.keyword(), "out");
    assert_eq!(ArgDirSpec::Out.with_in(), ArgDirSpec::InOut);
    assert_eq!(ArgDirSpec::LateOut.with_in(), ArgDirSpec::InLateOut);
    assert_eq!(ArgDirSpec::In.with_in(), ArgDirSpec::In);
    assert_eq!(ArgDirSpec::Out.with_in().with_in(), ArgDirSpec::Out.with_in());
}

#[test]
fn refused_constraints_are_warned_about() {
    let general = "Did not recognize inline asm constraint: U\nThis constraint has no known, safe translation to a Rust asm! register class or operand kind; the containing statement will be translated as an error instead of emitting output that may silently misbehave.";
    assert_eq!(constraint_warnings("U", Arch::Arm), vec![general.to_string()]);
    let x86 = constraint_warnings("=U", Arch::X86_64);
    assert_eq!(x86.len(), 2);
    assert_eq!(x86[0], "the x86 'U' inline assembly operand constraint cannot be translated correctly. It corresponds to the `clobber_abi` option for `asm!`, but c2rust does not know the ABI being used, so it cannot be translated automatically. Please correct manually after translation.");
    assert_eq!(x86[1], general);
    assert!(constraint_warnings("r", Arch::X86).is_empty());
    assert!(constraint_warnings("+K,0", Arch::Riscv).is_empty());
}
