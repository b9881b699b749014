//! The crates that translated code can depend on.

use crate::path_laws::law_joining_texts;
use crate::paths::{is_name, joined_text, ComponentView, SourcePath};
use crate::text::{chars_of, replace_char, replaced, string_of};
use vstd::prelude::*;

verus! {

/// A crate that translated code can depend on.
#[derive(Clone, Copy, PartialEq, Eq, PartialOrd, Ord, Hash, Structural, Debug)]
pub enum ExternCrate {
    C2RustBitfields,
    C2RustAsmCasts,
    F128,
    NumTraits,
    Memoffset,
    Libc,
}

/// The place of a crate in the order of their declaration.
pub open spec fn crate_rank(c: ExternCrate) -> u64 {
    match c {
        ExternCrate::C2RustBitfields => 0,
        ExternCrate::C2RustAsmCasts => 1,
        ExternCrate::F128 => 2,
        ExternCrate::NumTraits => 3,
        ExternCrate::Memoffset => 4,
        ExternCrate::Libc => 5,
    }
}

impl ExternCrate {
    /// The place of the crate in the order of their declaration.
    pub fn rank(&self) -> (res: u64)
        ensures
            res == crate_rank(*self),
    {
        match self {
            ExternCrate::C2RustBitfields => 0,
            ExternCrate::C2RustAsmCasts => 1,
            ExternCrate::F128 => 2,
            ExternCrate::NumTraits => 3,
            ExternCrate::Memoffset => 4,
            ExternCrate::Libc => 5,
        }
    }

    /// The crate at a place in the order of their declaration.
    pub fn from_rank(rank: u64) -> (res: Option<ExternCrate>)
        ensures
            match res {
                Some(c) => crate_rank(c) == rank,
                None => rank > 5,
            },
    {
        match rank {
            0 => Some(ExternCrate::C2RustBitfields),
            1 => Some(ExternCrate::C2RustAsmCasts),
            2 => Some(ExternCrate::F128),
            3 => Some(ExternCrate::NumTraits),
            4 => Some(ExternCrate::Memoffset),
            5 => Some(ExternCrate::Libc),
            _ => None,
        }
    }
}

/// How a crate is depended on.
#[derive(Debug)]
pub struct ExternCrateDetails {
    pub name: &'static str,
    pub ident: String,
    pub macro_use: bool,
    pub version: &'static str,
    pub path: Option<SourcePath>,
}

/// What an [`ExternCrateDetails`] says.
#[verifier::ext_equal]
pub struct DetailsView {
    pub name: Seq<char>,
    pub ident: Seq<char>,
    pub macro_use: bool,
    pub version: Seq<char>,
    pub path: Option<Seq<char>>,
}

/// An optional path, viewed.
pub open spec fn opt_path(p: Option<SourcePath>) -> Option<Seq<ComponentView>> {
    match p {
        Some(path) => Some(path@),
        None => None,
    }
}

/// How an optional path is written.
pub open spec fn opt_path_text(p: Option<SourcePath>) -> Option<Seq<char>> {
    match p {
        Some(path) => Some(path.text@),
        None => None,
    }
}

impl View for ExternCrateDetails {
    type V = DetailsView;

    open spec fn view(&self) -> DetailsView {
        DetailsView {
            name: self.name@,
            ident: self.ident@,
            macro_use: self.macro_use,
            version: self.version@,
            path: opt_path_text(self.path),
        }
    }
}

/// The details of a crate; its identifier is its name with underscores in the
/// place of dashes.
pub open spec fn details(
    name: Seq<char>,
    version: Seq<char>,
    macro_use: bool,
    path: Option<Seq<char>>,
) -> DetailsView {
    DetailsView { name, ident: replace_char(name, '-', '_'), macro_use, version, path }
}

/// The details of a crate that is developed together with the transpiler: it
/// has the transpiler's version, and lies in a directory of its name.
pub open spec fn internal_details(
    name: Seq<char>,
    macro_use: bool,
    c2rust_dir: Option<Seq<char>>,
    version: Seq<char>,
) -> DetailsView {
    details(
        name,
        version,
        macro_use,
        match c2rust_dir {
            Some(dir) => Some(joined_text(dir, name)),
            None => None,
        },
    )
}

/// The details of each crate.
pub open spec fn crate_details(
    c: ExternCrate,
    c2rust_dir: Option<Seq<char>>,
    version: Seq<char>,
) -> DetailsView {
    match c {
        ExternCrate::C2RustBitfields => internal_details(
            "c2rust-bitfields"@,
            true,
            c2rust_dir,
            version,
        ),
        ExternCrate::C2RustAsmCasts => internal_details(
            "c2rust-asm-casts"@,
            true,
            c2rust_dir,
            version,
        ),
        ExternCrate::F128 => details("f128"@, "0.2"@, false, None),
        ExternCrate::NumTraits => details("num-traits"@, "0.2"@, true, None),
        ExternCrate::Memoffset => details("memoffset"@, "0.5"@, true, None),
        ExternCrate::Libc => details("libc"@, "0.2"@, false, None),
    }
}

/// How an optional path by reference is written.
pub open spec fn opt_path_ref(p: Option<&SourcePath>) -> Option<Seq<char>> {
    match p {
        Some(path) => Some(path.text@),
        None => None,
    }
}

impl ExternCrateDetails {
    /// The details of a crate.
    pub fn new(
        name: &'static str,
        version: &'static str,
        macro_use: bool,
        path: Option<SourcePath>,
    ) -> (res: Self)
        ensures
            res@ == details(name@, version@, macro_use, opt_path_text(path)),
    {
        let chars = chars_of(name);
        let ident = replaced(chars.as_slice(), '-', '_');
        ExternCrateDetails {
            name,
            ident: string_of(ident.as_slice()),
            macro_use,
            version,
            path,
        }
    }

    /// An external (to c2rust) dependency.
    pub fn external(name: &'static str, version: &'static str, macro_use: bool) -> (res: Self)
        ensures
            res@ == details(name@, version@, macro_use, None),
    {
        ExternCrateDetails::new(name, version, macro_use, None)
    }

    /// An internal (to c2rust) dependency, which has the version of the
    /// transpiler.
    pub fn internal(
        name: &'static str,
        macro_use: bool,
        c2rust_dir: Option<&SourcePath>,
        version: &'static str,
    ) -> (res: Self)
        ensures
            res@ == internal_details(name@, macro_use, opt_path_ref(c2rust_dir), version@),
    {
        let path = match c2rust_dir {
            Some(dir) => {
                let sub = SourcePath::parse(name);
                Some(dir.join(&sub))
            },
            None => None,
        };
        ExternCrateDetails::new(name, version, macro_use, path)
    }
}

impl ExternCrate {
    /// The details of the crate.
    pub fn with_details(&self, c2rust_dir: Option<&SourcePath>, version: &'static str) -> (res:
        ExternCrateDetails)
        ensures
            res@ == crate_details(*self, opt_path_ref(c2rust_dir), version@),
    {
        match self {
            ExternCrate::C2RustBitfields => ExternCrateDetails::internal(
                "c2rust-bitfields",
                true,
                c2rust_dir,
                version,
            ),
            ExternCrate::C2RustAsmCasts => ExternCrateDetails::internal(
                "c2rust-asm-casts",
                true,
                c2rust_dir,
                version,
            ),
            ExternCrate::F128 => ExternCrateDetails::external("f128", "0.2", false),
            ExternCrate::NumTraits => ExternCrateDetails::external("num-traits", "0.2", true),
            ExternCrate::Memoffset => ExternCrateDetails::external("memoffset", "0.5", true),
            ExternCrate::Libc => ExternCrateDetails::external("libc", "0.2", false),
        }
    }
}

/// The identifier of a crate holds no dash.
pub proof fn law_idents_have_no_dash(
    c: ExternCrate,
    c2rust_dir: Option<Seq<char>>,
    version: Seq<char>,
)
    ensures
        !crate_details(c, c2rust_dir, version).ident.contains('-'),
{
}

/// The crates of the transpiler itself have its version and lie in the directory
/// of their name; all others have the version that is asked for and come from
/// the registry. Macros are used from all but `f128` and `libc`.
pub proof fn law_crate_details(
    c: ExternCrate,
    c2rust_dir: Option<Seq<char>>,
    version: Seq<char>,
)
    ensures
        ({
            let d = crate_details(c, c2rust_dir, version);
            let is_internal = c is C2RustBitfields || c is C2RustAsmCasts;
            &&& d.name == match c {
                ExternCrate::C2RustBitfields => "c2rust-bitfields"@,
                ExternCrate::C2RustAsmCasts => "c2rust-asm-casts"@,
                ExternCrate::F128 => "f128"@,
                ExternCrate::NumTraits => "num-traits"@,
                ExternCrate::Memoffset => "memoffset"@,
                ExternCrate::Libc => "libc"@,
            }
            &&& d.version == if is_internal {
                version
            } else if c is Memoffset {
                "0.5"@
            } else {
                "0.2"@
            }
            &&& d.macro_use == !(c is F128 || c is Libc)
            &&& d.path == match c2rust_dir {
                Some(dir) if is_internal => Some(joined_text(dir, d.name)),
                _ => None,
            }
            &&& d.ident.len() == d.name.len()
            &&& forall|i: int|
                0 <= i < d.name.len() ==> #[trigger] d.ident[i] == if d.name[i] == '-' {
                    '_'
                } else {
                    d.name[i]
                }
        }),
{
}

/// The identifier of a crate is its name with an underscore for every dash.
pub proof fn law_idents_are_names_without_dashes(
    name: Seq<char>,
    version: Seq<char>,
    macro_use: bool,
    path: Option<Seq<char>>,
)
    ensures
        ({
            let d = details(name, version, macro_use, path);
            &&& d.name == name && d.version == version && d.macro_use == macro_use && d.path == path
            &&& d.ident.len() == name.len()
            &&& forall|i: int|
                0 <= i < name.len() ==> #[trigger] d.ident[i] == if name[i] == '-' {
                    '_'
                } else {
                    name[i]
                }
        }),
{
}

/// The crates are ranked in the order of their declaration, each differently.
pub proof fn law_ranks(a: ExternCrate, b: ExternCrate)
    ensures
        crate_rank(a) == crate_rank(b) <==> a == b,
        crate_rank(ExternCrate::C2RustBitfields) < crate_rank(ExternCrate::C2RustAsmCasts)
            < crate_rank(ExternCrate::F128) < crate_rank(ExternCrate::NumTraits) < crate_rank(
            ExternCrate::Memoffset,
        ) < crate_rank(ExternCrate::Libc),
{
}

/// A crate of the transpiler itself has its version, and lies in the directory of
/// its name below that of the transpiler, if that is known.
pub proof fn law_internal_crates(
    name: Seq<char>,
    macro_use: bool,
    dir: Seq<char>,
    version: Seq<char>,
)
    requires
        is_name(name),
        dir.len() > 0,
        dir.last() != '/',
    ensures
        internal_details(name, macro_use, None, version) == details(name, version, macro_use, None),
        internal_details(name, macro_use, Some(dir), version) == details(
            name,
            version,
            macro_use,
            Some(dir + "/"@ + name),
        ),
{
    assert(name.contains(name[0]));
    law_joining_texts(dir, name);
}

} // verus!
