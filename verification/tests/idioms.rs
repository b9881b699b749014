use c2rust_transpile::kernel_idioms::{
    all_named_rules, parse_rule_list, KernelIdiomRule, KernelIdiomRules,
};

const RULES: [KernelIdiomRule; 5] = [
    KernelIdiomRule::All,
    KernelIdiomRule::WarnOn,
    KernelIdiomRule::FlsFamily,
    KernelIdiomRule::SwapMemSwap,
    KernelIdiomRule::AddrLabelPlaceholder,
];

#[test]
fn nothing_is_enabled_by_default() {
    for rule in RULES {
        assert!(!KernelIdiomRules::none().is_enabled(rule));
        assert!(!KernelIdiomRules::default().is_enabled(rule));
    }
}

#[test]
fn named_rules_are_enabled() {
    let rules = KernelIdiomRules::from_iter(vec![
        KernelIdiomRule::WarnOn,
        KernelIdiomRule::FlsFamily,
        KernelIdiomRule::WarnOn,
    ]);
    assert!(rules.is_enabled(KernelIdiomRule::WarnOn));
    assert!(rules.clone().is_enabled(KernelIdiomRule::FlsFamily));
    assert!(!rules.is_enabled(KernelIdiomRule::SwapMemSwap));
    assert!(!rules.is_enabled(KernelIdiomRule::All));
}

#[test]
fn all_enables_everything() {
    let rules = KernelIdiomRules::from_iter(vec![KernelIdiomRule::All]);
    for rule in RULES {
        assert!(rules.is_enabled(rule));
    }
}

#[test]
fn rule_names_are_kebab_case() {
    let names: Vec<&str> = all_named_rules().iter().map(|r| r.name()).collect();
    assert_eq!(names, vec!["warn-on", "fls-family", "swap-mem-swap", "addr-label-placeholder"]);
    for rule in RULES {
        assert_eq!(KernelIdiomRule::from_name(rule.name()), Some(rule));
    }
    assert_eq!(KernelIdiomRule::from_name("All"), None);
}

#[test]
fn lists_are_parsed() {
    assert_eq!(
        parse_rule_list("warn-on,fls-family"),
        Ok(vec![KernelIdiomRule::WarnOn, KernelIdiomRule::FlsFamily])
    );
    assert_eq!(
        parse_rule_list(" all ,\u{a0}warn-on\t,, "),
        Ok(vec![KernelIdiomRule::All, KernelIdiomRule::WarnOn])
    );
    assert_eq!(parse_rule_list(""), Ok(vec![]));
    assert_eq!(parse_rule_list("warn-on, nope ,zap"), Err("unknown rule: nope".to_string()));
    let all: Vec<&str> = RULES.iter().map(|r| r.name()).collect();
    assert_eq!(parse_rule_list(&all.join(",")), Ok(RULES.to_vec()));
}
