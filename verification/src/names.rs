//! Names for modules and crates, made of file names.

use crate::paths::{
    component_texts, extension_of, file_name_of, is_name, law_names_are_stem_and_extension,
    law_stems_and_extensions, law_written_paths_come_back, lemma_stem_not_empty, path_of, path_text,
    path_wf, stem_of, with_name, with_name_text, ComponentView, SourcePath,
};
use crate::text::{
    char_is_alphanumeric, chars_of, holds_text, is_alphanumeric, push_text, same_text, string_of,
    strings,
};
use vstd::prelude::*;

verus! {

/// The character, or an underscore in the place of one that is neither a
/// letter nor a number.
pub open spec fn ident_char(c: char) -> char {
    if is_alphanumeric(c) {
        c
    } else {
        '_'
    }
}

/// The text with an underscore in the place of every character that is neither
/// a letter nor a number.
pub open spec fn ident_of(s: Seq<char>) -> Seq<char> {
    Seq::new(s.len(), |i: int| ident_char(s[i]))
}

/// The identifier for a text, as a raw one if it is a keyword and keywords are
/// to be avoided.
pub open spec fn checked_ident(
    s: Seq<char>,
    check_reserved: bool,
    keywords: Seq<Seq<char>>,
) -> Seq<char> {
    if check_reserved && keywords.contains(ident_of(s)) {
        "r#"@ + ident_of(s)
    } else {
        ident_of(s)
    }
}

/// The character, or an underscore in the place of one that is neither a
/// letter nor a number.
pub fn char_to_ident(c: char) -> (res: char)
    ensures
        res == ident_char(c),
{
    if char_is_alphanumeric(c) {
        c
    } else {
        '_'
    }
}

/// The text with underscores in the place of illegal characters.
pub fn str_to_ident(s: &str) -> (res: String)
    ensures
        res@ == ident_of(s@),
{
    let chars = chars_of(s);
    let mut out: Vec<char> = Vec::new();
    let mut i: usize = 0;
    while i < chars.len()
        invariant
            i <= chars@.len(),
            chars@ == s@,
            out@ == ident_of(s@).take(i as int),
        decreases chars@.len() - i,
    {
        out.push(char_to_ident(chars[i]));
        i += 1;
        assert(out@ =~= ident_of(s@).take(i as int));
    }
    string_of(out.as_slice())
}

/// Make sure that name:
/// - does not contain illegal characters,
/// - does not clash with reserved keywords.
pub fn str_to_ident_checked(s: &str, check_reserved: bool, keywords: &[String]) -> (res: String)
    ensures
        res@ == checked_ident(s@, check_reserved, strings(keywords@)),
{
    let ident = str_to_ident(s);
    if check_reserved && holds_text(keywords, ident.as_str()) {
        let mut raw = chars_of("r#");
        push_text(&mut raw, ident.as_str());
        string_of(raw.as_slice())
    } else {
        ident
    }
}

/// The file name says that the file is a Rust file.
pub open spec fn is_rust_file(name: Seq<char>) -> bool {
    extension_of(name) == Some("rs"@)
}

/// The name of the module for a file name, with the extension of a Rust file
/// kept or not.
pub open spec fn module_of(
    name: Seq<char>,
    check_reserved: bool,
    keep_extension: bool,
    keywords: Seq<Seq<char>>,
) -> Seq<char> {
    if !is_rust_file(name) {
        checked_ident(name, check_reserved, keywords)
    } else if keep_extension {
        checked_ident(stem_of(name), check_reserved, keywords) + ".rs"@
    } else {
        checked_ident(stem_of(name), check_reserved, keywords)
    }
}

/// The name of the module for a file, alone or as the path to it.
pub open spec fn module_name(
    file: Seq<char>,
    check_reserved: bool,
    keep_extension: bool,
    full_path: bool,
    keywords: Seq<Seq<char>>,
) -> Seq<char> {
    let name = module_of(
        file_name_of(path_of(file)).unwrap(),
        check_reserved,
        keep_extension,
        keywords,
    );
    if full_path {
        with_name_text(file, name)
    } else {
        name
    }
}

fn module_of_file(
    file: &SourcePath,
    check_reserved: bool,
    keep_extension: bool,
    keywords: &[String],
) -> (res: String)
    requires
        file_name_of(file@) is Some,
    ensures
        res@ == module_of(
            file_name_of(file@).unwrap(),
            check_reserved,
            keep_extension,
            strings(keywords@),
        ),
{
    let is_rs = match file.extension() {
        Some(ext) => same_text(ext.as_str(), "rs"),
        None => false,
    };
    let fname = if is_rs {
        file.file_stem().unwrap()
    } else {
        file.file_name().unwrap()
    };
    let ident = str_to_ident_checked(fname.as_str(), check_reserved, keywords);
    if keep_extension && is_rs {
        let mut name = chars_of(ident.as_str());
        push_text(&mut name, ".rs");
        string_of(name.as_slice())
    } else {
        ident
    }
}

/// The name of the module for a file.
pub fn get_module_name(
    file: &SourcePath,
    check_reserved: bool,
    keep_extension: bool,
    full_path: bool,
    keywords: &[String],
) -> (res: Option<String>)
    requires
        file_name_of(file@) is Some,
    ensures
        res matches Some(name) && name@ == module_name(
            file.text@,
            check_reserved,
            keep_extension,
            full_path,
            strings(keywords@),
        ),
{
    let name = module_of_file(file, check_reserved, keep_extension, keywords);
    if full_path {
        Some(file.with_file_name(name.as_str()).to_text())
    } else {
        Some(name)
    }
}

/// An identifier holds letters, numbers and underscores only, as many as the
/// text had characters, and becomes no other by being made an identifier again.
pub proof fn law_identifiers_are_legal(s: Seq<char>)
    ensures
        ident_of(s).len() == s.len(),
        forall|i: int|
            0 <= i < s.len() ==> is_alphanumeric(#[trigger] ident_of(s)[i]) || ident_of(s)[i]
                == '_',
        ident_of(ident_of(s)) == ident_of(s),
{
    assert(ident_of(ident_of(s)) =~= ident_of(s));
}

/// A checked identifier is no keyword, as long as no keyword begins with `r#`.
pub proof fn law_checked_identifiers_are_free(s: Seq<char>, keywords: Seq<Seq<char>>)
    requires
        forall|i: int| 0 <= i < keywords.len() ==> !"r#"@.is_prefix_of(#[trigger] keywords[i]),
    ensures
        !keywords.contains(checked_ident(s, true, keywords)),
{
    let raw = "r#"@ + ident_of(s);
    assert("r#"@.is_prefix_of(raw)) by {
        assert("r#"@ =~= raw.subrange(0, "r#"@.len() as int));
    }
    if keywords.contains(raw) {
        let i = choose|i: int| 0 <= i < keywords.len() && keywords[i] == raw;
        assert("r#"@.is_prefix_of(keywords[i]));
    }
}

proof fn lemma_dot_is_replaced(s: Seq<char>)
    requires
        s.len() > 0,
    ensures
        is_name(ident_of(s)),
        !ident_of(s).contains('.'),
        !ident_of(s).contains('/'),
{
    reveal_strlit(".");
    reveal_strlit("..");
    let id = ident_of(s);
    assert forall|i: int| 0 <= i < id.len() implies id[i] != '.' && id[i] != '/' by {}
    if id == "."@ || id == ".."@ {
        assert(id[0] == '.');
    }
}

/// A text without a separator that can be a name names the path of just that
/// name.
pub proof fn lemma_path_of_name(name: Seq<char>)
    requires
        is_name(name),
    ensures
        path_of(name) == seq![ComponentView::Normal(name)],
{
    let p = seq![ComponentView::Normal(name)];
    assert(path_wf(p));
    assert(p != seq![ComponentView::Root]) by {
        assert(p[0] == ComponentView::Normal(name));
        assert(seq![ComponentView::Root][0] == ComponentView::Root);
    }
    assert(component_texts(p) =~= seq![name]);
    assert(path_text(p) == name);
    law_written_paths_come_back(p);
}

/// The name of a module can be the name of a file.
pub proof fn lemma_module_is_name(
    name: Seq<char>,
    check_reserved: bool,
    keep_extension: bool,
    keywords: Seq<Seq<char>>,
)
    requires
        is_name(name),
    ensures
        is_name(module_of(name, check_reserved, keep_extension, keywords)),
{
    reveal_strlit(".");
    reveal_strlit("..");
    reveal_strlit("r#");
    reveal_strlit(".rs");
    let base = if is_rust_file(name) {
        stem_of(name)
    } else {
        name
    };
    lemma_stem_not_empty(name);
    lemma_dot_is_replaced(base);
    let id = ident_of(base);
    let checked = checked_ident(base, check_reserved, keywords);
    let module = module_of(name, check_reserved, keep_extension, keywords);
    assert(!checked.contains('/')) by {
        if checked.contains('/') {
            let k = choose|k: int| 0 <= k < checked.len() && checked[k] == '/';
            if checked.len() == id.len() {
                assert(id[k] == '/');
            } else if k >= 2 {
                assert(id[k - 2] == '/');
            }
        }
    }
    assert(!module.contains('/')) by {
        if module.contains('/') {
            let k = choose|k: int| 0 <= k < module.len() && module[k] == '/';
            if k < checked.len() {
                assert(checked[k] == '/');
            }
        }
    }
    assert(checked[0] != '.') by {
        if checked.len() == id.len() {
            if id[0] == '.' {
                assert(id.contains('.'));
            }
        }
    }
    assert(module[0] == checked[0]);
}

/// The path of a module is the path of the file with the name of the module in
/// the place of the file name.
pub proof fn law_module_path(
    dir: Seq<ComponentView>,
    name: Seq<char>,
    check_reserved: bool,
    keep_extension: bool,
    keywords: Seq<Seq<char>>,
)
    requires
        is_name(name),
    ensures
        with_name(
            dir.push(ComponentView::Normal(name)),
            module_of(name, check_reserved, keep_extension, keywords),
        ) == dir.push(
            ComponentView::Normal(module_of(name, check_reserved, keep_extension, keywords)),
        ),
{
    let module = module_of(name, check_reserved, keep_extension, keywords);
    lemma_module_is_name(name, check_reserved, keep_extension, keywords);
    lemma_path_of_name(module);
    let file = dir.push(ComponentView::Normal(name));
    assert(file.drop_last() =~= dir);
    assert(dir + seq![ComponentView::Normal(module)] =~= dir.push(ComponentView::Normal(module)));
}

/// Making an identifier changes illegal characters only: every letter and every
/// number stands unchanged at its place, and all else is an underscore there.
pub proof fn law_legal_characters_stay(s: Seq<char>)
    ensures
        ident_of(s).len() == s.len(),
        forall|i: int|
            0 <= i < s.len() ==> (is_alphanumeric(s[i]) ==> #[trigger] ident_of(s)[i] == s[i]) && (
            !is_alphanumeric(s[i]) ==> ident_of(s)[i] == '_'),
        (forall|i: int| 0 <= i < s.len() ==> is_alphanumeric(#[trigger] s[i]) || s[i] == '_')
            ==> ident_of(s) == s,
{
    if forall|i: int| 0 <= i < s.len() ==> is_alphanumeric(#[trigger] s[i]) || s[i] == '_' {
        assert forall|i: int| 0 <= i < s.len() implies ident_of(s)[i] == s[i] by {
            assert(is_alphanumeric(s[i]) || s[i] == '_');
        }
        assert(ident_of(s) =~= s);
    }
}

/// An identifier gets `r#` before it exactly if keywords are to be avoided and it
/// is one, and is otherwise what the text is made into.
pub proof fn law_keywords_become_raw(
    s: Seq<char>,
    check_reserved: bool,
    keywords: Seq<Seq<char>>,
)
    ensures
        check_reserved && keywords.contains(ident_of(s)) ==> checked_ident(
            s,
            check_reserved,
            keywords,
        ) == "r#"@ + ident_of(s),
        !check_reserved || !keywords.contains(ident_of(s)) ==> checked_ident(
            s,
            check_reserved,
            keywords,
        ) == ident_of(s),
{
}

/// The module of a Rust file is named after what stands before `.rs`, which stays
/// behind it if extensions are kept. The module of any other file is named after
/// the whole file name.
pub proof fn law_modules_are_named_after_files(
    stem: Seq<char>,
    name: Seq<char>,
    check_reserved: bool,
    keywords: Seq<Seq<char>>,
)
    requires
        stem.len() > 0,
        forall|before: Seq<char>| before.len() > 0 ==> name != #[trigger] (before + ".rs"@),
    ensures
        module_of(stem + ".rs"@, check_reserved, true, keywords) == checked_ident(
            stem,
            check_reserved,
            keywords,
        ) + ".rs"@,
        module_of(stem + ".rs"@, check_reserved, false, keywords) == checked_ident(
            stem,
            check_reserved,
            keywords,
        ),
        module_of(name, check_reserved, true, keywords) == checked_ident(
            name,
            check_reserved,
            keywords,
        ),
        module_of(name, check_reserved, false, keywords) == checked_ident(
            name,
            check_reserved,
            keywords,
        ),
{
    reveal_strlit("rs");
    reveal_strlit(".rs");
    reveal_strlit(".");
    assert("." @ + "rs"@ =~= ".rs"@);
    assert(stem + "."@ + "rs"@ =~= stem + ".rs"@);
    law_stems_and_extensions(stem, "rs"@);
    if is_rust_file(name) {
        law_names_are_stem_and_extension(name);
        let before = stem_of(name);
        assert(before + "."@ + "rs"@ =~= before + ".rs"@);
        lemma_stem_not_empty(name);
        assert(name == before + ".rs"@);
    }
}

/// The name of a module alone is that of its file name; the full path has the
/// name in the place of the file name.
pub proof fn law_module_names(
    file: Seq<char>,
    check_reserved: bool,
    keep_extension: bool,
    keywords: Seq<Seq<char>>,
)
    requires
        file_name_of(path_of(file)) is Some,
    ensures
        ({
            let name = module_of(
                file_name_of(path_of(file)).unwrap(),
                check_reserved,
                keep_extension,
                keywords,
            );
            &&& module_name(file, check_reserved, keep_extension, false, keywords) == name
            &&& module_name(file, check_reserved, keep_extension, true, keywords)
                == with_name_text(file, name)
        }),
{
}

} // verus!
