//! Opt-in registry of kernel-source-idiom rewrites: transformations that
//! recognize a specific, stably-identifiable Linux kernel API (an exact
//! macro decl, or an exact function name + signature) and emit the
//! idiomatic Rust equivalent in place of a literal transliteration of the
//! C implementation.
//!
//! Every rewrite in this module's `KernelIdiomRule` set is off unless
//! explicitly named via `--enable-rule`. Callers who want a given rewrite
//! (e.g. a project working on Linux kernel sources) opt in per rule.

use crate::text::{
    chars_of, is_text, is_whitespace, join, law_split_join, lemma_nothing_to_trim, push_all, split,
    split_at_char, string_of, texts, trim_to_class, trimmed, CharClass,
};
use vstd::prelude::*;

verus! {

/// One independently-toggleable kernel-idiom rewrite.
#[derive(Clone, Copy, PartialEq, Eq, Hash, Structural, Debug)]
pub enum KernelIdiomRule {
    /// Enable every rule below, present and future.
    All,
    /// Recognize expansions of the kernel's `WARN_ON` and `WARN` macros
    /// (matched by macro decl, not by the shape of the expanded
    /// statement-expression) and emit `kernel::warn_on!(condition)` instead
    /// of transliterating the scaffolding either macro expands to.
    WarnOn,
    /// Recognize the kernel's generic bit-scan primitives,
    /// `generic_fls`/`generic___fls`/`generic___ffs`/`fls64`, matched by
    /// exact function name plus parameter/return C type, and emit a
    /// `leading_zeros()`/`trailing_zeros()`-based one-line body.
    FlsFamily,
    /// Recognize the expansion of the kernel's `swap(a, b)` macro (matched
    /// by the shape of its `do{}while(0)` body) and emit
    /// `core::mem::swap(&mut a, &mut b)`.
    SwapMemSwap,
    /// Recognize the kernel's `_THIS_IP_` macro and emit a placeholder
    /// value of the expression's own type. Not a real program-counter
    /// capture.
    AddrLabelPlaceholder,
}

/// The name of a rule.
pub open spec fn rule_name(rule: KernelIdiomRule) -> Seq<char> {
    match rule {
        KernelIdiomRule::All => "all"@,
        KernelIdiomRule::WarnOn => "warn-on"@,
        KernelIdiomRule::FlsFamily => "fls-family"@,
        KernelIdiomRule::SwapMemSwap => "swap-mem-swap"@,
        KernelIdiomRule::AddrLabelPlaceholder => "addr-label-placeholder"@,
    }
}

/// The rule with this name.
pub open spec fn rule_named(name: Seq<char>) -> Option<KernelIdiomRule> {
    if name == "all"@ {
        Some(KernelIdiomRule::All)
    } else if name == "warn-on"@ {
        Some(KernelIdiomRule::WarnOn)
    } else if name == "fls-family"@ {
        Some(KernelIdiomRule::FlsFamily)
    } else if name == "swap-mem-swap"@ {
        Some(KernelIdiomRule::SwapMemSwap)
    } else if name == "addr-label-placeholder"@ {
        Some(KernelIdiomRule::AddrLabelPlaceholder)
    } else {
        None
    }
}

impl KernelIdiomRule {
    /// The name of the rule.
    pub fn name(&self) -> (res: &'static str)
        ensures
            res@ == rule_name(*self),
    {
        match self {
            KernelIdiomRule::All => "all",
            KernelIdiomRule::WarnOn => "warn-on",
            KernelIdiomRule::FlsFamily => "fls-family",
            KernelIdiomRule::SwapMemSwap => "swap-mem-swap",
            KernelIdiomRule::AddrLabelPlaceholder => "addr-label-placeholder",
        }
    }

    /// Finds the rule with the given name.
    pub fn from_name(name: &str) -> (res: Option<KernelIdiomRule>)
        ensures
            res == rule_named(name@),
    {
        let chars = chars_of(name);
        rule_with_name(chars.as_slice())
    }
}

fn rule_with_name(name: &[char]) -> (res: Option<KernelIdiomRule>)
    ensures
        res == rule_named(name@),
{
    if is_text(name, "all") {
        Some(KernelIdiomRule::All)
    } else if is_text(name, "warn-on") {
        Some(KernelIdiomRule::WarnOn)
    } else if is_text(name, "fls-family") {
        Some(KernelIdiomRule::FlsFamily)
    } else if is_text(name, "swap-mem-swap") {
        Some(KernelIdiomRule::SwapMemSwap)
    } else if is_text(name, "addr-label-placeholder") {
        Some(KernelIdiomRule::AddrLabelPlaceholder)
    } else {
        None
    }
}

/// The active set of [`KernelIdiomRule`]s for one transpile run.
#[derive(Debug)]
pub struct KernelIdiomRules {
    rules: Vec<KernelIdiomRule>,
}

impl View for KernelIdiomRules {
    type V = Set<KernelIdiomRule>;

    closed spec fn view(&self) -> Set<KernelIdiomRule> {
        self.rules@.to_set()
    }
}

/// The rule is enabled: it was named directly, or `All` was named.
pub open spec fn enabled(rules: Set<KernelIdiomRule>, rule: KernelIdiomRule) -> bool {
    rules.contains(rule) || rules.contains(KernelIdiomRule::All)
}

impl KernelIdiomRules {
    /// No rule is held twice.
    #[verifier::type_invariant]
    closed spec fn wf(self) -> bool {
        self.rules@.no_duplicates()
    }

    /// No rules enabled: literal C transliteration for everything this
    /// module knows how to rewrite.
    pub fn none() -> (res: Self)
        ensures
            res@ == Set::<KernelIdiomRule>::empty(),
    {
        let res = KernelIdiomRules { rules: Vec::new() };
        assert(res@ =~= Set::<KernelIdiomRule>::empty());
        res
    }

    fn holds(&self, rule: KernelIdiomRule) -> (res: bool)
        ensures
            res == self@.contains(rule),
    {
        let mut i: usize = 0;
        while i < self.rules.len()
            invariant
                i <= self.rules@.len(),
                forall|k: int| 0 <= k < i ==> self.rules@[k] != rule,
            decreases self.rules@.len() - i,
        {
            if self.rules[i] == rule {
                assert(self.rules@.contains(rule));
                return true;
            }
            i += 1;
        }
        assert(!self.rules@.contains(rule));
        false
    }

    /// `rule` is enabled if it was named directly, or if `All` was named.
    pub fn is_enabled(&self, rule: KernelIdiomRule) -> (res: bool)
        ensures
            res == enabled(self@, rule),
    {
        self.holds(rule) || self.holds(KernelIdiomRule::All)
    }

    /// The set of the given rules.
    pub fn from_iter(iter: Vec<KernelIdiomRule>) -> (res: Self)
        ensures
            res@ == iter@.to_set(),
    {
        let mut res = KernelIdiomRules::none();
        let mut i: usize = 0;
        assert(iter@.take(0).to_set() =~= Set::<KernelIdiomRule>::empty());
        while i < iter.len()
            invariant
                i <= iter@.len(),
                res@ == iter@.take(i as int).to_set(),
            decreases iter@.len() - i,
        {
            let rule = iter[i];
            proof {
                lemma_set_of_longer(iter@, i as int);
            }
            if !res.holds(rule) {
                res = res.with(rule);
            } else {
                assert(res@.insert(rule) =~= res@);
            }
            i += 1;
        }
        assert(iter@.take(iter@.len() as int) == iter@);
        res
    }

    fn with(self, rule: KernelIdiomRule) -> (res: Self)
        requires
            !self@.contains(rule),
        ensures
            res@ == self@.insert(rule),
    {
        proof {
            use_type_invariant(&self);
        }
        let mut rules = self.rules;
        let ghost before = rules@;
        rules.push(rule);
        proof {
            assert(before.push(rule).take(before.len() as int) == before);
            lemma_set_of_longer(rules@, before.len() as int);
            assert(rules@.take(rules@.len() as int) == rules@);
            assert forall|i: int, j: int|
                0 <= i < rules@.len() && 0 <= j < rules@.len() && i != j implies rules@[i]
                != rules@[j] by {
                if i == before.len() {
                    assert(before.contains(before[j]));
                } else if j == before.len() {
                    assert(before.contains(before[i]));
                }
            }
        }
        KernelIdiomRules { rules }
    }
}

impl Clone for KernelIdiomRules {
    fn clone(&self) -> (res: Self)
        ensures
            res@ == self@,
    {
        proof {
            use_type_invariant(self);
        }
        let rules = self.rules.clone();
        assert(rules@ =~= self.rules@);
        KernelIdiomRules { rules }
    }
}

impl Default for KernelIdiomRules {
    fn default() -> (res: Self)
        ensures
            res@ == Set::<KernelIdiomRule>::empty(),
    {
        KernelIdiomRules::none()
    }
}

proof fn lemma_set_of_longer(s: Seq<KernelIdiomRule>, i: int)
    requires
        0 <= i < s.len(),
    ensures
        s.take(i + 1).to_set() == s.take(i).to_set().insert(s[i]),
{
    let longer = s.take(i + 1);
    let shorter = s.take(i);
    assert forall|x: KernelIdiomRule| longer.to_set().contains(x) == shorter.to_set().insert(
        s[i],
    ).contains(x) by {
        if shorter.contains(x) {
            let k = choose|k: int| 0 <= k < shorter.len() && shorter[k] == x;
            assert(longer[k] == x);
        }
        if x == s[i] {
            assert(longer[i] == x);
        }
        if longer.contains(x) && x != s[i] {
            let k = choose|k: int| 0 <= k < longer.len() && longer[k] == x;
            assert(shorter[k] == x);
        }
    }
    assert(longer.to_set() =~= shorter.to_set().insert(s[i]));
}

/// Every named (non-`All`) rule, for building "known rules" help/error text
/// without hand-maintaining a second list that drifts from the enum itself.
pub fn all_named_rules() -> (res: Vec<KernelIdiomRule>)
    ensures
        res@ == named_rules(),
{
    let mut rules: Vec<KernelIdiomRule> = Vec::new();
    rules.push(KernelIdiomRule::WarnOn);
    rules.push(KernelIdiomRule::FlsFamily);
    rules.push(KernelIdiomRule::SwapMemSwap);
    rules.push(KernelIdiomRule::AddrLabelPlaceholder);
    rules
}

/// Every rule but `All`, in the order of their declaration.
pub open spec fn named_rules() -> Seq<KernelIdiomRule> {
    seq![
        KernelIdiomRule::WarnOn,
        KernelIdiomRule::FlsFamily,
        KernelIdiomRule::SwapMemSwap,
        KernelIdiomRule::AddrLabelPlaceholder,
    ]
}

/// The rules that the first `n` parts of a list name: each part without the
/// whitespace around it, empty ones left out; or the message about the first
/// part that names none.
pub open spec fn rules_of_parts(parts: Seq<Seq<char>>, n: int) -> Result<
    Seq<KernelIdiomRule>,
    Seq<char>,
>
    decreases n,
{
    if n <= 0 {
        Ok(Seq::empty())
    } else {
        match rules_of_parts(parts, n - 1) {
            Err(message) => Err(message),
            Ok(before) => {
                let part = trimmed(parts[n - 1]);
                if part.len() == 0 {
                    Ok(before)
                } else {
                    match rule_named(part) {
                        Some(rule) => Ok(before.push(rule)),
                        None => Err("unknown rule: "@ + part),
                    }
                }
            },
        }
    }
}

/// The rules that a comma-separated list names.
pub open spec fn rules_of_list(s: Seq<char>) -> Result<Seq<KernelIdiomRule>, Seq<char>> {
    rules_of_parts(split(s, ','), split(s, ',').len() as int)
}

/// A list of rules or a message, viewed.
pub open spec fn rules_view(r: Result<Vec<KernelIdiomRule>, String>) -> Result<
    Seq<KernelIdiomRule>,
    Seq<char>,
> {
    match r {
        Ok(rules) => Ok(rules@),
        Err(message) => Err(message@),
    }
}

proof fn lemma_message_stays(parts: Seq<Seq<char>>, n: int, m: int)
    requires
        n <= m,
    ensures
        rules_of_parts(parts, n) matches Err(e) ==> rules_of_parts(parts, m) == Err::<
            Seq<KernelIdiomRule>,
            Seq<char>,
        >(e),
    decreases m - n,
{
    if n < m {
        lemma_message_stays(parts, n, m - 1);
    }
}

/// Parse one `--enable-rule` value, which may itself be a comma-separated
/// list (e.g. `--enable-rule=warn-on,fls-family`).
pub fn parse_rule_list(s: &str) -> (res: Result<Vec<KernelIdiomRule>, String>)
    ensures
        rules_view(res) == rules_of_list(s@),
{
    let chars = chars_of(s);
    let pieces = split_at_char(chars.as_slice(), ',');
    let ghost parts = split(s@, ',');
    let mut rules: Vec<KernelIdiomRule> = Vec::new();
    let mut i: usize = 0;
    while i < pieces.len()
        invariant
            i <= pieces@.len(),
            parts == split(s@, ','),
            texts(pieces@) == parts,
            rules_of_parts(parts, i as int) == Ok::<Seq<KernelIdiomRule>, Seq<char>>(rules@),
        decreases pieces@.len() - i,
    {
        assert(parts[i as int] == pieces@[i as int]@);
        proof {
            lemma_message_stays(parts, i + 1, parts.len() as int);
        }
        let part = trim_to_class(pieces[i].as_slice(), CharClass::NonSpace);
        if part.len() > 0 {
            match rule_with_name(part.as_slice()) {
                Some(rule) => rules.push(rule),
                None => {
                    let mut message = chars_of("unknown rule: ");
                    push_all(&mut message, part.as_slice());
                    return Err(string_of(message.as_slice()));
                },
            }
        }
        i += 1;
    }
    Ok(rules)
}

/// With no rule named, none is enabled; with `All` named, every rule is; a rule
/// named directly is enabled; and without `All` no other is.
pub proof fn law_enabling(rules: Set<KernelIdiomRule>, rule: KernelIdiomRule)
    ensures
        !enabled(Set::empty(), rule),
        enabled(rules.insert(KernelIdiomRule::All), rule),
        enabled(rules.insert(rule), rule),
        !rules.contains(KernelIdiomRule::All) ==> (enabled(rules, rule) <==> rules.contains(rule)),
{
}

/// Every rule is `All` or one of the named rules, and `All` is not one of them.
pub proof fn law_named_rules_are_complete(rule: KernelIdiomRule)
    ensures
        named_rules().contains(rule) <==> rule != KernelIdiomRule::All,
{
    let named = named_rules();
    assert(named[0] == KernelIdiomRule::WarnOn);
    assert(named[1] == KernelIdiomRule::FlsFamily);
    assert(named[2] == KernelIdiomRule::SwapMemSwap);
    assert(named[3] == KernelIdiomRule::AddrLabelPlaceholder);
}

/// The name of a rule names that rule and no other.
pub proof fn law_names_are_unique(rule: KernelIdiomRule, name: Seq<char>)
    ensures
        rule_named(name) == Some(rule) <==> name == rule_name(rule),
{
    reveal_strlit("all");
    reveal_strlit("warn-on");
    reveal_strlit("fls-family");
    reveal_strlit("swap-mem-swap");
    reveal_strlit("addr-label-placeholder");
    assert("all"@.len() == 3);
    assert("warn-on"@.len() == 7);
    assert("fls-family"@.len() == 10);
    assert("swap-mem-swap"@.len() == 13);
    assert("addr-label-placeholder"@.len() == 22);
}

/// The names of a list of rules.
pub open spec fn rule_names(rules: Seq<KernelIdiomRule>) -> Seq<Seq<char>> {
    Seq::new(rules.len(), |i: int| rule_name(rules[i]))
}

proof fn lemma_name_chars(rule: KernelIdiomRule)
    ensures
        rule_name(rule).len() > 0,
        !rule_name(rule).contains(','),
        !is_whitespace(rule_name(rule)[0]),
        !is_whitespace(rule_name(rule).last()),
{
    reveal_strlit("all");
    reveal_strlit("warn-on");
    reveal_strlit("fls-family");
    reveal_strlit("swap-mem-swap");
    reveal_strlit("addr-label-placeholder");
}

proof fn lemma_parts_of_names(rules: Seq<KernelIdiomRule>, n: int)
    requires
        0 <= n <= rules.len(),
    ensures
        rules_of_parts(rule_names(rules), n) == Ok::<Seq<KernelIdiomRule>, Seq<char>>(
            rules.take(n),
        ),
    decreases n,
{
    if n > 0 {
        lemma_parts_of_names(rules, n - 1);
        let rule = rules[n - 1];
        lemma_name_chars(rule);
        lemma_nothing_to_trim(rule_name(rule));
        law_names_are_unique(rule, rule_name(rule));
        assert(rules.take(n) == rules.take(n - 1).push(rule));
    } else {
        assert(rules.take(0) == Seq::<KernelIdiomRule>::empty());
    }
}

/// The names of some rules with commas between them are parsed to these rules.
pub proof fn law_rule_lists_come_back(rules: Seq<KernelIdiomRule>)
    requires
        rules.len() > 0,
    ensures
        rules_of_list(join(rule_names(rules), seq![','])) == Ok::<
            Seq<KernelIdiomRule>,
            Seq<char>,
        >(rules),
{
    let names = rule_names(rules);
    assert forall|i: int| 0 <= i < names.len() implies !(#[trigger] names[i]).contains(',') by {
        lemma_name_chars(rules[i]);
    }
    law_split_join(names, ',');
    lemma_parts_of_names(rules, rules.len() as int);
    assert(rules.take(rules.len() as int) == rules);
}

/// In a list the parts count without the whitespace around them, and blank ones
/// do not count. The first part that names no rule is reported, and nothing else.
pub proof fn law_parts_of_a_list(parts: Seq<Seq<char>>, part: Seq<char>)
    requires
        forall|i: int| 0 <= i < parts.len() ==> !(#[trigger] parts[i]).contains(','),
        !part.contains(','),
        parts.len() > 0,
    ensures
        ({
            let before = rules_of_list(join(parts, seq![',']));
            let after = rules_of_list(join(parts.push(part), seq![',']));
            match before {
                Err(message) => after == Err::<Seq<KernelIdiomRule>, Seq<char>>(message),
                Ok(rules) => {
                    &&& trimmed(part).len() == 0 ==> after == before
                    &&& forall|rule: KernelIdiomRule|
                        trimmed(part) == #[trigger] rule_name(rule) ==> after == Ok::<
                            Seq<KernelIdiomRule>,
                            Seq<char>,
                        >(rules.push(rule))
                    &&& trimmed(part).len() > 0 && (forall|rule: KernelIdiomRule|
                        trimmed(part) != #[trigger] rule_name(rule)) ==> after == Err::<
                        Seq<KernelIdiomRule>,
                        Seq<char>,
                    >("unknown rule: "@ + trimmed(part))
                },
            }
        }),
{
    let more = parts.push(part);
    assert forall|i: int| 0 <= i < more.len() implies !(#[trigger] more[i]).contains(',') by {
        if i < parts.len() {
            assert(more[i] == parts[i]);
        }
    }
    law_split_join(parts, ',');
    law_split_join(more, ',');
    lemma_same_rules(parts, more, parts.len() as int);
    assert(more[parts.len() as int] == part);
    assert forall|rule: KernelIdiomRule| trimmed(part) == #[trigger] rule_name(rule) implies trimmed(
        part,
    ).len() > 0 && rule_named(trimmed(part)) == Some(rule) by {
        lemma_name_chars(rule);
        law_names_are_unique(rule, trimmed(part));
    }
    if rule_named(trimmed(part)) is Some {
        let rule = rule_named(trimmed(part)).unwrap();
        law_names_are_unique(rule, trimmed(part));
        assert(trimmed(part) == rule_name(rule));
    }
}

proof fn lemma_same_rules(a: Seq<Seq<char>>, b: Seq<Seq<char>>, n: int)
    requires
        0 <= n <= a.len(),
        n <= b.len(),
        forall|i: int| 0 <= i < n ==> #[trigger] a[i] == b[i],
    ensures
        rules_of_parts(a, n) == rules_of_parts(b, n),
    decreases n,
{
    if n > 0 {
        lemma_same_rules(a, b, n - 1);
        assert(a[n - 1] == b[n - 1]);
    }
}

/// The names of the rules.
pub proof fn law_rules_have_their_names()
    ensures
        rule_named("all"@) == Some(KernelIdiomRule::All),
        rule_named("warn-on"@) == Some(KernelIdiomRule::WarnOn),
        rule_named("fls-family"@) == Some(KernelIdiomRule::FlsFamily),
        rule_named("swap-mem-swap"@) == Some(KernelIdiomRule::SwapMemSwap),
        rule_named("addr-label-placeholder"@) == Some(KernelIdiomRule::AddrLabelPlaceholder),
        forall|name: Seq<char>| #[trigger]
            rule_named(name) is Some ==> name == rule_name(rule_named(name).unwrap()),
{
    law_names_are_unique(KernelIdiomRule::All, "all"@);
    law_names_are_unique(KernelIdiomRule::WarnOn, "warn-on"@);
    law_names_are_unique(KernelIdiomRule::FlsFamily, "fls-family"@);
    law_names_are_unique(KernelIdiomRule::SwapMemSwap, "swap-mem-swap"@);
    law_names_are_unique(KernelIdiomRule::AddrLabelPlaceholder, "addr-label-placeholder"@);
}

/// A list of one part names the rule that the part names without the whitespace
/// around it, none if it is blank, and is refused if it names none.
pub proof fn law_lists_of_one_part(part: Seq<char>)
    requires
        !part.contains(','),
    ensures
        trimmed(part).len() == 0 ==> rules_of_list(part) == Ok::<Seq<KernelIdiomRule>, Seq<char>>(
            Seq::empty(),
        ),
        forall|rule: KernelIdiomRule|
            trimmed(part) == #[trigger] rule_name(rule) ==> rules_of_list(part) == Ok::<
                Seq<KernelIdiomRule>,
                Seq<char>,
            >(seq![rule]),
        trimmed(part).len() > 0 && (forall|rule: KernelIdiomRule|
            trimmed(part) != #[trigger] rule_name(rule)) ==> rules_of_list(part) == Err::<
            Seq<KernelIdiomRule>,
            Seq<char>,
        >("unknown rule: "@ + trimmed(part)),
{
    let parts = seq![part];
    assert(join(parts, seq![',']) == part);
    assert forall|i: int| 0 <= i < parts.len() implies !(#[trigger] parts[i]).contains(',') by {}
    law_split_join(parts, ',');
    assert(rules_of_parts(parts, 0) == Ok::<Seq<KernelIdiomRule>, Seq<char>>(Seq::empty()));
    assert forall|rule: KernelIdiomRule| trimmed(part) == #[trigger] rule_name(rule) implies trimmed(
        part,
    ).len() > 0 && rule_named(trimmed(part)) == Some(rule) by {
        lemma_name_chars(rule);
        law_names_are_unique(rule, trimmed(part));
    }
    if let Some(rule) = rule_named(trimmed(part)) {
        law_names_are_unique(rule, trimmed(part));
        assert(Seq::empty().push(rule) =~= seq![rule]);
    }
}

} // verus!
