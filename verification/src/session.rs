//! A run over the link commands of a project: what each is called, where its
//! output goes, what its files require, and what is left to do at the end.

use crate::config::{
    crate_name, has_output_path, lemma_renamed_is_path, path_texts, path_views, renamed_input,
    TranspilerConfig,
};
use crate::crates::{crate_rank, law_ranks, opt_path, ExternCrate};
use crate::errors::opt_text;
use crate::path_laws::{
    law_files_in_directories, law_files_without_directories, law_joining_texts,
    law_no_parent_of_nothing,
};
use crate::paths::{
    common_ancestor, file_name_of, is_name, joined_text, law_common_ancestor, law_joined, path_of,
    path_wf, popped, stem_of, ComponentView, SourcePath,
};
use crate::requirements::{pair_views, pairs_ascend, ranks_ascend, ranks_of, Requirements};
use crate::text::{lemma_taken_next, strings};
use vstd::prelude::*;

verus! {

/// A link command: its output, whether it is the top-level one, and the
/// absolute paths of the files that go into it.
#[derive(Debug)]
pub struct LinkCmd {
    pub output: Option<String>,
    pub top_level: bool,
    pub files: Vec<SourcePath>,
}

/// What a link command is called: the name of its output without extension, or
/// else the name of the crate.
pub open spec fn link_name(
    output: Option<Seq<char>>,
    output_dir: Option<Seq<ComponentView>>,
    keywords: Seq<Seq<char>>,
) -> Seq<char> {
    match output {
        Some(text) => stem_of(file_name_of(path_of(text)).unwrap()),
        None => crate_name(output_dir, keywords),
    }
}

/// Where the output of a link command goes: the build directory for the
/// top-level one, else a directory in it.
pub open spec fn link_build_dir(
    top_level: bool,
    build_dir: Seq<char>,
    name: Seq<char>,
) -> Seq<char> {
    if top_level {
        build_dir
    } else {
        joined_text(build_dir, name)
    }
}

/// The common ancestor of the first `n` files: the directory of the first,
/// as far up as it takes to be above the others too.
pub open spec fn ancestor_of(files: Seq<Seq<ComponentView>>, n: int) -> Seq<ComponentView>
    decreases n,
{
    if n <= 0 {
        Seq::empty()
    } else if n == 1 {
        popped(files[0])
    } else {
        common_ancestor(ancestor_of(files, n - 1), files[n - 1])
    }
}

/// The output of a link command has a name, if there is one.
pub open spec fn has_link_name(output: Option<Seq<char>>) -> bool {
    output matches Some(text) ==> file_name_of(path_of(text)) is Some
}

impl LinkCmd {
    /// Whether the output has a name, if there is one.
    pub fn can_be_named(&self) -> (res: bool)
        ensures
            res == has_link_name(opt_text(self.output)),
    {
        match &self.output {
            Some(text) => SourcePath::parse(text.as_str()).file_name().is_some(),
            None => true,
        }
    }

    /// What the link command is called.
    pub fn name(&self, tcfg: &TranspilerConfig, keywords: &[String]) -> (res: String)
        requires
            has_link_name(opt_text(self.output)),
        ensures
            res@ == link_name(
                opt_text(self.output),
                opt_path(tcfg.output_dir),
                strings(keywords@),
            ),
    {
        match &self.output {
            Some(text) => SourcePath::parse(text.as_str()).file_stem().unwrap(),
            None => tcfg.crate_name(keywords),
        }
    }

    /// Where the output of the link command goes.
    pub fn build_dir(&self, build_dir: &SourcePath, name: &str) -> (res: SourcePath)
        ensures
            res.text@ == link_build_dir(self.top_level, build_dir.text@, name@),
    {
        if self.top_level {
            build_dir.duplicate()
        } else {
            let sub = SourcePath::parse(name);
            build_dir.join(&sub)
        }
    }

    /// The common ancestor of all files.
    pub fn ancestor(&self) -> (res: SourcePath)
        ensures
            res@ == ancestor_of(path_views(self.files@), self.files@.len() as int),
    {
        if self.files.len() == 0 {
            return SourcePath::new();
        }
        let ghost all = path_views(self.files@);
        assert(all[0] == self.files@[0]@);
        let mut ancestor = self.files[0].pop();
        let mut i: usize = 1;
        while i < self.files.len()
            invariant
                1 <= i <= self.files@.len(),
                all == path_views(self.files@),
                ancestor@ == ancestor_of(all, i as int),
            decreases self.files@.len() - i,
        {
            assert(all[i as int] == self.files@[i as int]@);
            ancestor = ancestor.common_ancestor(&self.files[i]);
            i += 1;
        }
        ancestor
    }
}

proof fn lemma_prefix_of_prefix(
    p: Seq<ComponentView>,
    q: Seq<ComponentView>,
    r: Seq<ComponentView>,
)
    requires
        p.is_prefix_of(q),
        q.is_prefix_of(r),
    ensures
        p.is_prefix_of(r),
{
    assert(p =~= r.subrange(0, p.len() as int)) by {
        assert(p =~= q.subrange(0, p.len() as int));
        assert(q =~= r.subrange(0, q.len() as int));
    }
}

/// The common ancestor of some files is above each of them, and nothing further
/// down is above the directory of the first and the others.
pub proof fn law_ancestor_is_above(
    files: Seq<Seq<ComponentView>>,
    n: int,
    r: Seq<ComponentView>,
)
    requires
        0 < n <= files.len(),
    ensures
        forall|i: int| 0 <= i < n ==> ancestor_of(files, n).is_prefix_of(#[trigger] files[i]),
        r.is_prefix_of(popped(files[0])) && (forall|i: int|
            1 <= i < n ==> r.is_prefix_of(#[trigger] files[i])) ==> r.is_prefix_of(
            ancestor_of(files, n),
        ),
    decreases n,
{
    let a = ancestor_of(files, n);
    if n == 1 {
        assert(a.is_prefix_of(files[0])) by {
            assert(a =~= files[0].subrange(0, a.len() as int));
        }
    } else {
        let before = ancestor_of(files, n - 1);
        law_ancestor_is_above(files, n - 1, r);
        law_common_ancestor(before, files[n - 1], r);
        assert forall|i: int| 0 <= i < n implies a.is_prefix_of(#[trigger] files[i]) by {
            if i < n - 1 {
                lemma_prefix_of_prefix(a, before, files[i]);
            }
        }
    }
}

/// The path is absolute, goes nowhere up, and ends in a file name.
pub open spec fn is_plain_file(p: Seq<ComponentView>) -> bool {
    &&& path_wf(p)
    &&& p.len() >= 2
    &&& p[0] is Root
    &&& forall|i: int| 1 <= i < p.len() ==> #[trigger] p[i] is Normal
}

/// Every file of a link command has an output path, if the paths are absolute,
/// go nowhere up, and none of them is a directory above the others.
pub proof fn law_files_have_output_paths(files: Seq<Seq<ComponentView>>, has_output_dir: bool)
    requires
        files.len() > 0,
        forall|i: int| 0 <= i < files.len() ==> is_plain_file(#[trigger] files[i]),
        forall|i: int|
            0 <= i < files.len() ==> #[trigger] files[i] != ancestor_of(files, files.len() as int),
    ensures
        forall|i: int|
            0 <= i < files.len() ==> has_output_path(
                has_output_dir,
                #[trigger] files[i],
                ancestor_of(files, files.len() as int),
            ),
{
    let a = ancestor_of(files, files.len() as int);
    let root = seq![ComponentView::Root];
    assert(is_plain_file(files[0]));
    assert(root.is_prefix_of(popped(files[0]))) by {
        assert(popped(files[0]) =~= files[0].drop_last());
        assert(root =~= popped(files[0]).subrange(0, 1));
    }
    assert forall|i: int| 1 <= i < files.len() implies root.is_prefix_of(#[trigger] files[i]) by {
        assert(is_plain_file(files[i]));
        assert(root =~= files[i].subrange(0, 1));
    }
    law_ancestor_is_above(files, files.len() as int, root);
    assert(a.len() >= 1);
    assert forall|i: int| 0 <= i < files.len() implies has_output_path(
        has_output_dir,
        #[trigger] files[i],
        a,
    ) by {
        let p = files[i];
        assert(is_plain_file(p));
        assert(p[p.len() - 1] is Normal);
        assert(a.is_prefix_of(p));
        assert(a =~= p.subrange(0, a.len() as int));
        if a.len() == p.len() {
            assert(a =~= p);
        }
        lemma_renamed_is_path(p);
        let renamed = renamed_input(p);
        assert forall|k: int| 0 <= k < p.len() - 1 implies renamed[k] == p[k] by {
            assert(renamed.drop_last()[k] == p.drop_last()[k]);
        }
        assert(a =~= renamed.subrange(0, a.len() as int));
        let rest = renamed.skip(a.len() as int);
        assert forall|k: int| 0 <= k < rest.len() implies #[trigger] rest[k] is Normal by {
            let at = k + a.len() as int;
            assert(rest[k] == renamed[at]);
            if at < p.len() - 1 {
                assert(p[at] is Normal);
            } else {
                assert(renamed[at] == renamed.last());
            }
        }
    }
}

/// What a translated file leaves behind: its module, its pragmas by key, and
/// the crates that it needs.
#[derive(Debug)]
pub struct FileOutput {
    pub module: SourcePath,
    pub pragmas: Vec<(String, Vec<String>)>,
    pub crates: Vec<ExternCrate>,
}

/// The pragma is among those of the first `n` keys.
pub open spec fn lists_pragma(
    pragmas: Seq<(String, Vec<String>)>,
    n: int,
    pragma: (Seq<char>, Seq<char>),
) -> bool {
    exists|i: int|
        0 <= i < n && (#[trigger] pragmas[i]).0@ == pragma.0 && strings(pragmas[i].1@).contains(
            pragma.1,
        )
}

/// The file needs the pragma.
pub open spec fn needs_pragma(file: FileOutput, pragma: (Seq<char>, Seq<char>)) -> bool {
    lists_pragma(file.pragmas@, file.pragmas@.len() as int, pragma)
}

/// One of the first `n` files was translated and needs the pragma.
pub open spec fn some_needs_pragma(
    results: Seq<Option<FileOutput>>,
    n: int,
    pragma: (Seq<char>, Seq<char>),
) -> bool {
    exists|k: int|
        0 <= k < n && (#[trigger] results[k] matches Some(file) && needs_pragma(file, pragma))
}

/// One of the first `n` files was translated and needs the crate with the rank.
pub open spec fn some_needs_crate(results: Seq<Option<FileOutput>>, n: int, rank: u64) -> bool {
    exists|k: int|
        0 <= k < n && (#[trigger] results[k] matches Some(file) && ranks_of(file.crates@).contains(
            rank,
        ))
}

/// The modules of the translated files, in order.
pub open spec fn modules_of(results: Seq<Option<FileOutput>>) -> Seq<Seq<char>>
    decreases results.len(),
{
    if results.len() == 0 {
        Seq::empty()
    } else {
        let before = modules_of(results.drop_last());
        match results.last() {
            Some(file) => before.push(file.module.text@),
            None => before,
        }
    }
}

/// A file was skipped.
pub open spec fn some_skipped(results: Seq<Option<FileOutput>>) -> bool {
    exists|k: int| 0 <= k < results.len() && #[trigger] results[k] is None
}

/// What the files of a link command amount to.
#[derive(Debug)]
pub struct LinkOutcome {
    pub modules: Vec<SourcePath>,
    pub modules_skipped: bool,
    pub pragmas: Vec<(String, String)>,
    pub crates: Vec<ExternCrate>,
}

/// The outcome has exactly the modules of the translated files, and each pragma
/// and crate that one of them needs, once, in ascending order.
pub open spec fn sums_up(outcome: LinkOutcome, results: Seq<Option<FileOutput>>) -> bool {
    &&& path_texts(outcome.modules@) == modules_of(results)
    &&& outcome.modules_skipped == some_skipped(results)
    &&& pair_views(outcome.pragmas@).no_duplicates()
    &&& pairs_ascend(pair_views(outcome.pragmas@))
    &&& forall|p: (Seq<char>, Seq<char>)| #[trigger]
        pair_views(outcome.pragmas@).contains(p) <==> some_needs_pragma(
            results,
            results.len() as int,
            p,
        )
    &&& ranks_of(outcome.crates@).no_duplicates()
    &&& ranks_ascend(ranks_of(outcome.crates@))
    &&& forall|r: u64| #[trigger]
        ranks_of(outcome.crates@).contains(r) <==> some_needs_crate(
            results,
            results.len() as int,
            r,
        )
}

fn add_values(required: &mut Requirements, key: &String, values: &Vec<String>)
    requires
        old(required).wf(),
    ensures
        final(required).wf(),
        final(required)@.crates == old(required)@.crates,
        forall|p: (Seq<char>, Seq<char>)| #[trigger]
            final(required)@.pragmas.contains(p) <==> old(required)@.pragmas.contains(p) || (p.0
                == key@ && strings(values@).contains(p.1)),
{
    let ghost all = strings(values@);
    let mut j: usize = 0;
    while j < values.len()
        invariant
            j <= values@.len(),
            all == strings(values@),
            required.wf(),
            required@.crates == old(required)@.crates,
            forall|p: (Seq<char>, Seq<char>)| #[trigger]
                required@.pragmas.contains(p) <==> old(required)@.pragmas.contains(p) || (p.0
                    == key@ && all.take(j as int).contains(p.1)),
        decreases values@.len() - j,
    {
        let ghost before = required@.pragmas;
        required.add_pragma(key, &values[j]);
        assert forall|p: (Seq<char>, Seq<char>)| #[trigger]
            required@.pragmas.contains(p) <==> old(required)@.pragmas.contains(p) || (p.0 == key@
                && all.take(j + 1).contains(p.1)) by {
            lemma_taken_next(all, j as int, p.1);
            assert(required@.pragmas.contains(p) == (before.contains(p) || p == (
                key@,
                all[j as int],
            )));
        }
        j += 1;
    }
    assert(all.take(all.len() as int) =~= all);
}

fn add_pragmas(required: &mut Requirements, pragmas: &Vec<(String, Vec<String>)>)
    requires
        old(required).wf(),
    ensures
        final(required).wf(),
        final(required)@.crates == old(required)@.crates,
        forall|p: (Seq<char>, Seq<char>)| #[trigger]
            final(required)@.pragmas.contains(p) <==> old(required)@.pragmas.contains(p)
                || lists_pragma(pragmas@, pragmas@.len() as int, p),
{
    let mut i: usize = 0;
    while i < pragmas.len()
        invariant
            i <= pragmas@.len(),
            required.wf(),
            required@.crates == old(required)@.crates,
            forall|p: (Seq<char>, Seq<char>)| #[trigger]
                required@.pragmas.contains(p) <==> old(required)@.pragmas.contains(p)
                    || lists_pragma(pragmas@, i as int, p),
        decreases pragmas@.len() - i,
    {
        let ghost before = required@.pragmas;
        add_values(required, &pragmas[i].0, &pragmas[i].1);
        assert forall|p: (Seq<char>, Seq<char>)| #[trigger]
            required@.pragmas.contains(p) <==> old(required)@.pragmas.contains(p) || lists_pragma(
                pragmas@,
                i + 1,
                p,
            ) by {
            assert(required@.pragmas.contains(p) == (before.contains(p) || (p.0
                == pragmas@[i as int].0@ && strings(pragmas@[i as int].1@).contains(p.1))));
            if lists_pragma(pragmas@, i as int, p) {
                let k = choose|k: int|
                    0 <= k < i && (#[trigger] pragmas@[k]).0@ == p.0 && strings(
                        pragmas@[k].1@,
                    ).contains(p.1);
                assert(pragmas@[k].0@ == p.0);
            }
            if lists_pragma(pragmas@, i + 1, p) && !lists_pragma(pragmas@, i as int, p) {
                let k = choose|k: int|
                    0 <= k < i + 1 && (#[trigger] pragmas@[k]).0@ == p.0 && strings(
                        pragmas@[k].1@,
                    ).contains(p.1);
                assert(k == i);
            }
        }
        i += 1;
    }
}

fn add_crates(required: &mut Requirements, crates: &Vec<ExternCrate>)
    requires
        old(required).wf(),
    ensures
        final(required).wf(),
        final(required)@.pragmas == old(required)@.pragmas,
        forall|r: u64| #[trigger]
            final(required)@.crates.contains(r) <==> old(required)@.crates.contains(r) || ranks_of(
                crates@,
            ).contains(r),
{
    let ghost all = ranks_of(crates@);
    let mut i: usize = 0;
    while i < crates.len()
        invariant
            i <= crates@.len(),
            all == ranks_of(crates@),
            required.wf(),
            required@.pragmas == old(required)@.pragmas,
            forall|r: u64| #[trigger]
                required@.crates.contains(r) <==> old(required)@.crates.contains(r) || all.take(
                    i as int,
                ).contains(r),
        decreases crates@.len() - i,
    {
        let ghost before = required@.crates;
        required.add_crate(crates[i]);
        assert forall|r: u64| #[trigger]
            required@.crates.contains(r) <==> old(required)@.crates.contains(r) || all.take(
                i + 1,
            ).contains(r) by {
            lemma_taken_next(all, i as int, r);
            assert(required@.crates.contains(r) == (before.contains(r) || r == all[i as int]));
        }
        i += 1;
    }
    assert(all.take(all.len() as int) =~= all);
}

/// Sums up the files of a link command.
pub fn collect_results(results: Vec<Option<FileOutput>>) -> (res: LinkOutcome)
    ensures
        sums_up(res, results@),
{
    let mut modules: Vec<SourcePath> = Vec::new();
    let mut modules_skipped: bool = false;
    let mut required = Requirements::new();
    assert(path_texts(modules@) =~= Seq::empty());
    let mut k: usize = 0;
    while k < results.len()
        invariant
            k <= results@.len(),
            required.wf(),
            path_texts(modules@) == modules_of(results@.take(k as int)),
            modules_skipped == some_skipped(results@.take(k as int)),
            forall|p: (Seq<char>, Seq<char>)| #[trigger]
                required@.pragmas.contains(p) <==> some_needs_pragma(results@, k as int, p),
            forall|r: u64| #[trigger]
                required@.crates.contains(r) <==> some_needs_crate(results@, k as int, r),
        decreases results@.len() - k,
    {
        let ghost next = results@.take(k + 1);
        let ghost so_far = results@.take(k as int);
        let ghost pragmas_before = required@.pragmas;
        let ghost crates_before = required@.crates;
        proof {
            assert(next.drop_last() =~= so_far);
            assert(next.last() == results@[k as int]);
            if some_skipped(so_far) {
                let j = choose|j: int| 0 <= j < so_far.len() && #[trigger] so_far[j] is None;
                assert(next[j] is None);
            }
            if some_skipped(next) && results@[k as int] is Some {
                let j = choose|j: int| 0 <= j < next.len() && #[trigger] next[j] is None;
                assert(so_far[j] is None);
            }
        }
        match &results[k] {
            Some(file) => {
                let ghost before = modules@;
                modules.push(file.module.duplicate());
                assert(path_texts(modules@) =~= path_texts(before).push(file.module.text@));
                add_crates(&mut required, &file.crates);
                add_pragmas(&mut required, &file.pragmas);
            },
            None => {
                modules_skipped = true;
                assert(next[k as int] is None);
            },
        }
        proof {
            assert forall|p: (Seq<char>, Seq<char>)| #[trigger]
                required@.pragmas.contains(p) <==> some_needs_pragma(results@, k + 1, p) by {
                assert(required@.pragmas.contains(p) == (pragmas_before.contains(p)
                    || (results@[k as int] matches Some(file) && needs_pragma(file, p))));
                if some_needs_pragma(results@, k as int, p) {
                    let j = choose|j: int|
                        0 <= j < k && (#[trigger] results@[j] matches Some(file) && needs_pragma(
                            file,
                            p,
                        ));
                    assert(results@[j] is Some);
                }
                if some_needs_pragma(results@, k + 1, p) && !some_needs_pragma(
                    results@,
                    k as int,
                    p,
                ) {
                    let j = choose|j: int|
                        0 <= j < k + 1 && (#[trigger] results@[j] matches Some(file)
                            && needs_pragma(file, p));
                    assert(j == k);
                }
            }
            assert forall|r: u64| #[trigger]
                required@.crates.contains(r) <==> some_needs_crate(results@, k + 1, r) by {
                assert(required@.crates.contains(r) == (crates_before.contains(r)
                    || (results@[k as int] matches Some(file) && ranks_of(
                    file.crates@,
                ).contains(r))));
                if some_needs_crate(results@, k as int, r) {
                    let j = choose|j: int|
                        0 <= j < k && (#[trigger] results@[j] matches Some(file) && ranks_of(
                            file.crates@,
                        ).contains(r));
                    assert(results@[j] is Some);
                }
                if some_needs_crate(results@, k + 1, r) && !some_needs_crate(
                    results@,
                    k as int,
                    r,
                ) {
                    let j = choose|j: int|
                        0 <= j < k + 1 && (#[trigger] results@[j] matches Some(file) && ranks_of(
                            file.crates@,
                        ).contains(r));
                    assert(j == k);
                }
            }
        }
        k += 1;
    }
    assert(results@.take(results@.len() as int) =~= results@);
    let ghost pragmas_needed = required@.pragmas;
    let ghost crates_needed = required@.crates;
    let (pragmas, crates) = required.into_sorted();
    proof {
        assert forall|p: (Seq<char>, Seq<char>)| #[trigger]
            pair_views(pragmas@).contains(p) <==> some_needs_pragma(
                results@,
                results@.len() as int,
                p,
            ) by {
            assert(pair_views(pragmas@).to_set().contains(p) == pragmas_needed.contains(p));
        }
        assert forall|r: u64| #[trigger]
            ranks_of(crates@).contains(r) <==> some_needs_crate(
                results@,
                results@.len() as int,
                r,
            ) by {
            assert(ranks_of(crates@).to_set().contains(r) == crates_needed.contains(r));
        }
    }
    LinkOutcome { modules, modules_skipped, pragmas, crates }
}

/// What build files for a crate are made of.
#[derive(Debug)]
pub struct CrateConfig {
    pub crate_name: String,
    pub link_cmd: LinkCmd,
    pub modules: Vec<SourcePath>,
    pub pragmas: Vec<(String, String)>,
    pub crates: Vec<ExternCrate>,
}

/// What to do after a link command.
#[derive(Debug)]
pub enum LinkAction {
    /// Stop the run: a file was skipped, so not all required pragmas may have
    /// been collected, and build files cannot be emitted.
    Stop,
    /// Go on with the next link command.
    Continue,
    /// Emit the build files of a member of the workspace, then go on.
    EmitMember(CrateConfig),
}

/// What to do at the end of a run.
#[derive(Clone, Copy, PartialEq, Eq, Structural, Debug)]
pub enum SessionEnd {
    /// No C files were found.
    NothingToDo,
    /// Emit the build files of the workspace, then check the binaries.
    EmitBuildFiles,
    /// Check the binaries.
    CheckBinaries,
}

/// What a run has collected so far.
#[derive(Debug)]
pub struct Session {
    pub workspace_members: Vec<String>,
    pub top_level: Option<CrateConfig>,
    pub transpiled_modules: Vec<SourcePath>,
}

fn push_paths(out: &mut Vec<SourcePath>, paths: &Vec<SourcePath>)
    ensures
        path_texts(final(out)@) == path_texts(old(out)@) + path_texts(paths@),
{
    let ghost all = path_texts(paths@);
    let mut i: usize = 0;
    while i < paths.len()
        invariant
            i <= paths@.len(),
            all == path_texts(paths@),
            path_texts(out@) == path_texts(old(out)@) + all.take(i as int),
        decreases paths@.len() - i,
    {
        let ghost before = out@;
        let path = paths[i].duplicate();
        out.push(path);
        proof {
            assert(path_texts(out@) =~= path_texts(before).push(all[i as int]));
            assert(all.take(i + 1) =~= all.take(i as int).push(all[i as int]));
        }
        i += 1;
    }
    assert(all.take(all.len() as int) =~= all);
}

impl Session {
    /// Nothing collected.
    pub fn new() -> (res: Self)
        ensures
            res.workspace_members@.len() == 0,
            res.top_level is None,
            res.transpiled_modules@.len() == 0,
    {
        Session {
            workspace_members: Vec::new(),
            top_level: None,
            transpiled_modules: Vec::new(),
        }
    }

    /// Takes in the outcome of a link command, and tells what to do then.
    pub fn add_link(
        &mut self,
        emit_build_files: bool,
        name: String,
        link: LinkCmd,
        outcome: LinkOutcome,
    ) -> (res: LinkAction)
        ensures
            path_texts(final(self).transpiled_modules@) == path_texts(old(self).transpiled_modules@)
                + path_texts(outcome.modules@),
            ({
                let config = CrateConfig {
                    crate_name: name,
                    link_cmd: link,
                    modules: outcome.modules,
                    pragmas: outcome.pragmas,
                    crates: outcome.crates,
                };
                if !emit_build_files || outcome.modules_skipped {
                    &&& res == (if emit_build_files {
                        LinkAction::Stop
                    } else {
                        LinkAction::Continue
                    })
                    &&& final(self).workspace_members@ == old(self).workspace_members@
                    &&& final(self).top_level == old(self).top_level
                } else if link.top_level {
                    &&& res == LinkAction::Continue
                    &&& final(self).workspace_members@ == old(self).workspace_members@
                    &&& final(self).top_level == Some(config)
                } else {
                    &&& res == LinkAction::EmitMember(config)
                    &&& strings(final(self).workspace_members@) == strings(
                        old(self).workspace_members@,
                    ).push(name@)
                    &&& final(self).top_level == old(self).top_level
                }
            }),
            match after_link(emit_build_files, outcome.modules_skipped, link.top_level) {
                AfterLink::Stop => res is Stop && final(self).top_level == old(self).top_level,
                AfterLink::GoOn => res is Continue && final(self).top_level == old(self).top_level,
                AfterLink::KeepTopLevel => res is Continue && (final(self).top_level matches Some(
                    config,
                ) && config.link_cmd == link && config.modules == outcome.modules),
                AfterLink::EmitMember => res matches LinkAction::EmitMember(config)
                    && config.link_cmd == link && config.modules == outcome.modules,
            },
    {
        push_paths(&mut self.transpiled_modules, &outcome.modules);
        if !emit_build_files {
            return LinkAction::Continue;
        }
        if outcome.modules_skipped {
            return LinkAction::Stop;
        }
        let member = name.clone();
        let top_level = link.top_level;
        let config = CrateConfig {
            crate_name: name,
            link_cmd: link,
            modules: outcome.modules,
            pragmas: outcome.pragmas,
            crates: outcome.crates,
        };
        if top_level {
            self.top_level = Some(config);
            LinkAction::Continue
        } else {
            self.workspace_members.push(member);
            assert(strings(self.workspace_members@) =~= strings(
                old(self).workspace_members@,
            ).push(name@));
            LinkAction::EmitMember(config)
        }
    }

    /// What is left to do after the last link command.
    pub fn finish(&self, emit_build_files: bool) -> (res: SessionEnd)
        ensures
            res == if self.transpiled_modules@.len() == 0 {
                SessionEnd::NothingToDo
            } else if emit_build_files {
                SessionEnd::EmitBuildFiles
            } else {
                SessionEnd::CheckBinaries
            },
            res == session_end(self.transpiled_modules@.len(), emit_build_files),
    {
        if self.transpiled_modules.len() == 0 {
            SessionEnd::NothingToDo
        } else if emit_build_files {
            SessionEnd::EmitBuildFiles
        } else {
            SessionEnd::CheckBinaries
        }
    }
}

/// A link command is called like its output without the extension, wherever that
/// lies, and like the crate if it has no output.
pub proof fn law_links_are_named_after_outputs(
    dir: Seq<char>,
    file: Seq<char>,
    output_dir: Option<Seq<ComponentView>>,
    keywords: Seq<Seq<char>>,
)
    requires
        dir.len() > 0,
        is_name(file),
    ensures
        link_name(Some(dir + "/"@ + file), output_dir, keywords) == stem_of(file),
        link_name(Some(file), output_dir, keywords) == stem_of(file),
        link_name(Some("/"@ + file), output_dir, keywords) == stem_of(file),
        has_link_name(Some(dir + "/"@ + file)) && has_link_name(Some(file)),
        link_name(None, output_dir, keywords) == crate_name(output_dir, keywords),
        has_link_name(None),
        !has_link_name(Some("/"@)) && !has_link_name(Some(Seq::empty())),
{
    law_files_in_directories(dir, file, Seq::empty(), Seq::empty());
    law_files_without_directories(file, Seq::empty(), Seq::empty());
    law_no_parent_of_nothing();
}

/// The top-level link command has the build directory to itself, and any other a
/// directory of its name in it.
pub proof fn law_links_have_their_directories(build_dir: Seq<char>, name: Seq<char>)
    requires
        is_name(name),
        build_dir.len() > 0,
    ensures
        link_build_dir(true, build_dir, name) == build_dir,
        link_build_dir(false, build_dir, name) == joined_text(build_dir, name),
        build_dir.last() != '/' ==> link_build_dir(false, build_dir, name) == build_dir + "/"@
            + name,
        path_of(link_build_dir(false, build_dir, name)) == path_of(build_dir).push(
            ComponentView::Normal(name),
        ),
{
    assert(name.contains(name[0]));
    law_joining_texts(build_dir, name);
    law_files_without_directories(name, name, name);
    law_joined(build_dir, name);
}

/// One more file adds its module behind the others if it was translated, and
/// counts as skipped if not.
pub proof fn law_one_more_file(results: Seq<Option<FileOutput>>, file: Option<FileOutput>)
    ensures
        modules_of(results.push(file)) == match file {
            Some(f) => modules_of(results).push(f.module.text@),
            None => modules_of(results),
        },
        modules_of(Seq::empty()).len() == 0,
        some_skipped(results.push(file)) <==> some_skipped(results) || file is None,
        !some_skipped(Seq::empty()),
{
    let all = results.push(file);
    assert(all.drop_last() =~= results);
    assert(all.last() == file);
    if some_skipped(results) {
        let k = choose|k: int| 0 <= k < results.len() && #[trigger] results[k] is None;
        assert(all[k] is None);
    }
    if file is None {
        assert(all[results.len() as int] is None);
    }
    if some_skipped(all) && file is Some {
        let k = choose|k: int| 0 <= k < all.len() && #[trigger] all[k] is None;
        assert(results[k] is None);
    }
}

/// What a translated file needs is in the sum: each value of each of its pragmas,
/// and each of its crates.
pub proof fn law_nothing_needed_is_lost(
    outcome: LinkOutcome,
    results: Seq<Option<FileOutput>>,
    k: int,
    file: FileOutput,
    i: int,
    j: int,
)
    requires
        sums_up(outcome, results),
        0 <= k < results.len(),
        results[k] == Some(file),
    ensures
        0 <= i < file.pragmas@.len() && 0 <= j < file.pragmas@[i].1@.len() ==> pair_views(
            outcome.pragmas@,
        ).contains((file.pragmas@[i].0@, file.pragmas@[i].1@[j]@)),
        0 <= i < file.crates@.len() ==> outcome.crates@.contains(file.crates@[i]),
{
    if 0 <= i < file.pragmas@.len() && 0 <= j < file.pragmas@[i].1@.len() {
        let values = strings(file.pragmas@[i].1@);
        let pragma = (file.pragmas@[i].0@, values[j]);
        assert(values.contains(pragma.1));
        assert(file.pragmas@[i].0@ == pragma.0);
        assert(needs_pragma(file, pragma));
        assert(some_needs_pragma(results, results.len() as int, pragma));
        assert(pair_views(outcome.pragmas@).contains(pragma));
    }
    if 0 <= i < file.crates@.len() {
        let rank = crate_rank(file.crates@[i]);
        let ranks = ranks_of(outcome.crates@);
        assert(ranks_of(file.crates@)[i] == rank);
        assert(ranks_of(file.crates@).contains(rank));
        assert(some_needs_crate(results, results.len() as int, rank));
        assert(ranks.contains(rank));
        let c = choose|c: int| 0 <= c < ranks.len() && ranks[c] == rank;
        law_ranks(outcome.crates@[c], file.crates@[i]);
        assert(outcome.crates@[c] == file.crates@[i]);
    }
}

/// The file has this pragma among its own.
pub open spec fn has_pragma(file: FileOutput, i: int, j: int, key: String, value: String) -> bool {
    &&& 0 <= i < file.pragmas@.len()
    &&& 0 <= j < file.pragmas@[i].1@.len()
    &&& file.pragmas@[i].0@ == key@
    &&& file.pragmas@[i].1@[j]@ == value@
}

/// Nothing is in the sum that no translated file needs, and nothing is in it
/// twice.
pub proof fn law_nothing_is_made_up(
    outcome: LinkOutcome,
    results: Seq<Option<FileOutput>>,
    n: int,
)
    requires
        sums_up(outcome, results),
    ensures
        0 <= n < outcome.pragmas@.len() ==> exists|k: int, i: int, j: int|
            0 <= k < results.len() && results[k] is Some && #[trigger] has_pragma(
                results[k].unwrap(),
                i,
                j,
                outcome.pragmas@[n].0,
                outcome.pragmas@[n].1,
            ),
        0 <= n < outcome.crates@.len() ==> exists|k: int|
            0 <= k < results.len() && (#[trigger] results[k] matches Some(file)
                && file.crates@.contains(outcome.crates@[n])),
        pair_views(outcome.pragmas@).no_duplicates(),
        outcome.crates@.no_duplicates(),
        forall|a: int, b: int|
            0 <= a < b < outcome.crates@.len() ==> crate_rank(#[trigger] outcome.crates@[a])
                < crate_rank(#[trigger] outcome.crates@[b]),
        path_texts(outcome.modules@) == modules_of(results),
        outcome.modules_skipped <==> some_skipped(results),
{
    let ranks = ranks_of(outcome.crates@);
    if 0 <= n < outcome.pragmas@.len() {
        let pragma = pair_views(outcome.pragmas@)[n];
        assert(pair_views(outcome.pragmas@).contains(pragma));
        assert(some_needs_pragma(results, results.len() as int, pragma));
        let k = choose|k: int|
            0 <= k < results.len() && (#[trigger] results[k] matches Some(file) && needs_pragma(
                file,
                pragma,
            ));
        let file = results[k].unwrap();
        assert(needs_pragma(file, pragma));
        let i = choose|i: int|
            0 <= i < file.pragmas@.len() && (#[trigger] file.pragmas@[i]).0@ == pragma.0 && strings(
                file.pragmas@[i].1@,
            ).contains(pragma.1);
        let values = strings(file.pragmas@[i].1@);
        let j = choose|j: int| 0 <= j < values.len() && values[j] == pragma.1;
        assert(has_pragma(
            results[k].unwrap(),
            i,
            j,
            outcome.pragmas@[n].0,
            outcome.pragmas@[n].1,
        ));
    }
    if 0 <= n < outcome.crates@.len() {
        let rank = ranks[n];
        assert(ranks.contains(rank));
        assert(some_needs_crate(results, results.len() as int, rank));
        let k = choose|k: int|
            0 <= k < results.len() && (#[trigger] results[k] matches Some(file) && ranks_of(
                file.crates@,
            ).contains(rank));
        let file = results[k].unwrap();
        let own = ranks_of(file.crates@);
        let c = choose|c: int| 0 <= c < own.len() && own[c] == rank;
        law_ranks(file.crates@[c], outcome.crates@[n]);
        assert(file.crates@[c] == outcome.crates@[n]);
        assert(results[k] is Some);
    }
    assert forall|a: int, b: int| 0 <= a < b < outcome.crates@.len() implies crate_rank(
        #[trigger] outcome.crates@[a],
    ) < crate_rank(#[trigger] outcome.crates@[b]) by {
        assert(ranks[a] <= ranks[b]);
        assert(ranks[a] != ranks[b]);
    }
    assert forall|a: int, b: int|
        0 <= a < outcome.crates@.len() && 0 <= b < outcome.crates@.len() && a
            != b implies outcome.crates@[a] != outcome.crates@[b] by {
        assert(ranks[a] != ranks[b]);
    }
}

/// What follows a link command: the run stops, goes on, keeps the crate for the
/// end, or emits it as a member.
pub enum AfterLink {
    Stop,
    GoOn,
    KeepTopLevel,
    EmitMember,
}

/// What follows a link command, by whether build files are wanted, whether a file
/// was skipped, and whether it is the top-level one.
pub open spec fn after_link(emit_build_files: bool, skipped: bool, top_level: bool) -> AfterLink {
    if !emit_build_files {
        AfterLink::GoOn
    } else if skipped {
        AfterLink::Stop
    } else if top_level {
        AfterLink::KeepTopLevel
    } else {
        AfterLink::EmitMember
    }
}

/// The run stops exactly if build files are wanted and a file was skipped. Build
/// files are never made for a link command with a skipped file, nor unless they
/// are wanted; otherwise they are made for all, at once for a member and at the
/// end for the top-level one.
pub proof fn law_build_files_need_all_files(
    emit_build_files: bool,
    skipped: bool,
    top_level: bool,
)
    ensures
        ({
            let then = after_link(emit_build_files, skipped, top_level);
            &&& then is Stop <==> emit_build_files && skipped
            &&& then is GoOn <==> !emit_build_files
            &&& then is KeepTopLevel <==> emit_build_files && !skipped && top_level
            &&& then is EmitMember <==> emit_build_files && !skipped && !top_level
        }),
{
}

/// What is left to do, by how many modules there are and whether build files are
/// wanted.
pub open spec fn session_end(modules: nat, emit_build_files: bool) -> SessionEnd {
    if modules == 0 {
        SessionEnd::NothingToDo
    } else if emit_build_files {
        SessionEnd::EmitBuildFiles
    } else {
        SessionEnd::CheckBinaries
    }
}

/// A run without a translated file has nothing left to do, whatever is wanted. Any
/// other emits build files exactly if they are wanted.
pub proof fn law_sessions_end(modules: nat, emit_build_files: bool)
    ensures
        session_end(modules, emit_build_files) == SessionEnd::NothingToDo <==> modules == 0,
        session_end(modules + 1, true) == SessionEnd::EmitBuildFiles,
        session_end(modules + 1, false) == SessionEnd::CheckBinaries,
{
}

} // verus!
