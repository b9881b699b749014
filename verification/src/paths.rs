//! Paths: the text that they are written as, and the components that it names by
//! the rules of Unix. Repeated separators count as one, `.` counts only at the
//! front of a relative path, and a trailing separator does not count.

use crate::text::{
    chars_of, copy_range, end_of_last, in_class, is_text, join, law_split_join, lemma_split_around,
    lemma_split_pieces, lemma_trailing, push_all, push_text, split, split_at_char, string_of, texts,
    CharClass,
};
use vstd::prelude::*;

verus! {

/// A component of a path.
#[derive(Clone, Debug)]
pub enum Component {
    /// The `/` at the front of an absolute path.
    Root,
    /// A `.` at the front of a relative path.
    CurDir,
    /// A `..`.
    ParentDir,
    /// The name of a file or directory.
    Normal(String),
}

/// What a [`Component`] says.
#[verifier::ext_equal]
pub enum ComponentView {
    Root,
    CurDir,
    ParentDir,
    Normal(Seq<char>),
}

impl View for Component {
    type V = ComponentView;

    open spec fn view(&self) -> ComponentView {
        match self {
            Component::Root => ComponentView::Root,
            Component::CurDir => ComponentView::CurDir,
            Component::ParentDir => ComponentView::ParentDir,
            Component::Normal(name) => ComponentView::Normal(name@),
        }
    }
}

/// The views of a list of components.
pub open spec fn component_views(components: Seq<Component>) -> Seq<ComponentView> {
    Seq::new(components.len(), |i: int| components[i]@)
}

/// A path, as it is written.
#[derive(Clone, Debug)]
pub struct SourcePath {
    pub text: String,
}

impl View for SourcePath {
    type V = Seq<ComponentView>;

    /// The components that the text names.
    open spec fn view(&self) -> Seq<ComponentView> {
        path_of(self.text@)
    }
}

/// A text that can be the name of a file or directory.
pub open spec fn is_name(s: Seq<char>) -> bool {
    s.len() > 0 && !s.contains('/') && s != "."@ && s != ".."@
}

/// The component may stand at this place.
pub open spec fn fits(c: ComponentView, i: int) -> bool {
    match c {
        ComponentView::Root => i == 0,
        ComponentView::CurDir => i == 0,
        ComponentView::ParentDir => true,
        ComponentView::Normal(name) => is_name(name),
    }
}

/// The components can be those of a path.
pub open spec fn path_wf(p: Seq<ComponentView>) -> bool {
    forall|i: int| 0 <= i < p.len() ==> fits(#[trigger] p[i], i)
}

/// The components that the first `n` pieces between separators yield.
pub open spec fn components_of(pieces: Seq<Seq<char>>, n: int) -> Seq<ComponentView>
    decreases n,
{
    if n <= 0 {
        Seq::empty()
    } else {
        let before = components_of(pieces, n - 1);
        let piece = pieces[n - 1];
        if piece.len() == 0 {
            before
        } else if piece == "."@ {
            if n == 1 {
                before.push(ComponentView::CurDir)
            } else {
                before
            }
        } else if piece == ".."@ {
            before.push(ComponentView::ParentDir)
        } else {
            before.push(ComponentView::Normal(piece))
        }
    }
}

/// The `/` at the front, if there is one.
pub open spec fn root_of(text: Seq<char>) -> Seq<ComponentView> {
    if text.len() > 0 && text[0] == '/' {
        seq![ComponentView::Root]
    } else {
        Seq::empty()
    }
}

/// The path that a text names.
pub open spec fn path_of(text: Seq<char>) -> Seq<ComponentView> {
    root_of(text) + components_of(split(text, '/'), split(text, '/').len() as int)
}

/// How a component is written; the root is what stands before the first
/// separator, which is nothing.
pub open spec fn component_text(c: ComponentView) -> Seq<char> {
    match c {
        ComponentView::Root => Seq::empty(),
        ComponentView::CurDir => "."@,
        ComponentView::ParentDir => ".."@,
        ComponentView::Normal(name) => name,
    }
}

/// How the components are written.
pub open spec fn component_texts(p: Seq<ComponentView>) -> Seq<Seq<char>> {
    Seq::new(p.len(), |i: int| component_text(p[i]))
}

/// How a path is written.
pub open spec fn path_text(p: Seq<ComponentView>) -> Seq<char> {
    if p == seq![ComponentView::Root] {
        "/"@
    } else {
        join(component_texts(p), seq!['/'])
    }
}

/// The last component, if it is a name.
pub open spec fn file_name_of(p: Seq<ComponentView>) -> Option<Seq<char>> {
    if p.len() == 0 {
        None
    } else {
        match p.last() {
            ComponentView::Normal(name) => Some(name),
            _ => None,
        }
    }
}

/// Where the extension of a name begins: behind the last dot, unless that is
/// the first character. 0 if there is no extension.
pub open spec fn extension_start(name: Seq<char>) -> int {
    let start = end_of_last(name, CharClass::Is('.'), name.len() as int);
    if start <= 1 {
        0
    } else {
        start
    }
}

/// A name without its extension.
pub open spec fn stem_of(name: Seq<char>) -> Seq<char> {
    if extension_start(name) == 0 {
        name
    } else {
        name.take(extension_start(name) - 1)
    }
}

/// The extension of a name.
pub open spec fn extension_of(name: Seq<char>) -> Option<Seq<char>> {
    if extension_start(name) == 0 {
        None
    } else {
        Some(name.skip(extension_start(name)))
    }
}

/// The path without its last component; none for the root and the empty path.
pub open spec fn parent_of(p: Seq<ComponentView>) -> Option<Seq<ComponentView>> {
    if p.len() == 0 || p.last() is Root {
        None
    } else {
        Some(p.drop_last())
    }
}

/// The path without its last component, or as it is if it has none.
pub open spec fn popped(p: Seq<ComponentView>) -> Seq<ComponentView> {
    match parent_of(p) {
        Some(parent) => parent,
        None => p,
    }
}

/// One path taken relative to another: an absolute one replaces it, and a `.`
/// at the front of a relative one counts only behind the empty path.
pub open spec fn joined(p: Seq<ComponentView>, q: Seq<ComponentView>) -> Seq<ComponentView> {
    if q.len() > 0 && q[0] is Root {
        q
    } else if p.len() > 0 && q.len() > 0 && q[0] is CurDir {
        p + q.skip(1)
    } else {
        p + q
    }
}

/// The path with its file name replaced, or added if it has none.
pub open spec fn with_name(p: Seq<ComponentView>, name: Seq<char>) -> Seq<ComponentView> {
    joined(
        if file_name_of(p) is Some {
            p.drop_last()
        } else {
            p
        },
        path_of(name),
    )
}

/// The path with the extension of its file name replaced or added; as it is if
/// it has no file name.
pub open spec fn with_extension(p: Seq<ComponentView>, ext: Seq<char>) -> Seq<ComponentView> {
    match file_name_of(p) {
        None => p,
        Some(name) => p.drop_last().push(ComponentView::Normal(stem_of(name) + "."@ + ext)),
    }
}

/// The piece between separators is a component: it is not empty, and a `.` only
/// counts at the front.
pub open spec fn is_component(pieces: Seq<Seq<char>>, i: int) -> bool {
    pieces[i].len() > 0 && (pieces[i] != "."@ || i == 0)
}

/// The last of the first `n` pieces that is a component, or -1.
pub open spec fn last_component(pieces: Seq<Seq<char>>, n: int) -> int
    decreases n,
{
    if n <= 0 {
        -1
    } else if is_component(pieces, n - 1) {
        n - 1
    } else {
        last_component(pieces, n - 1)
    }
}

/// The text of the path without its last component: up to the end of the
/// component before it.
pub open spec fn parent_text(text: Seq<char>) -> Option<Seq<char>> {
    let pieces = split(text, '/');
    let last = last_component(pieces, pieces.len() as int);
    let before = last_component(pieces, last);
    if last < 0 {
        None
    } else if before >= 0 {
        Some(join(pieces.take(before + 1), seq!['/']))
    } else if text[0] == '/' {
        Some("/"@)
    } else {
        Some(""@)
    }
}

/// One text taken relative to another: an absolute one replaces it, another
/// goes behind it, with a separator unless there is one.
pub open spec fn joined_text(a: Seq<char>, b: Seq<char>) -> Seq<char> {
    if b.len() > 0 && b[0] == '/' {
        b
    } else if a.len() == 0 || a.last() == '/' {
        a + b
    } else {
        a.push('/') + b
    }
}

/// The text with the file name replaced, or added if there is none.
pub open spec fn with_name_text(text: Seq<char>, name: Seq<char>) -> Seq<char> {
    joined_text(
        if file_name_of(path_of(text)) is Some {
            parent_text(text).unwrap()
        } else {
            text
        },
        name,
    )
}

/// The text with the extension of the file name replaced or added; as it is if
/// there is no file name. What stands behind the file name goes.
pub open spec fn with_extension_text(text: Seq<char>, ext: Seq<char>) -> Seq<char> {
    let pieces = split(text, '/');
    match file_name_of(path_of(text)) {
        None => text,
        Some(name) => join(
            pieces.take(last_component(pieces, pieces.len() as int)).push(
                stem_of(name) + "."@ + ext,
            ),
            seq!['/'],
        ),
    }
}

/// How many components two paths have in common at the front.
pub open spec fn common_len(p: Seq<ComponentView>, q: Seq<ComponentView>, from: int) -> int
    decreases p.len() - from,
{
    if from < 0 || from >= p.len() || from >= q.len() || p[from] != q[from] {
        from
    } else {
        common_len(p, q, from + 1)
    }
}

/// The longest path that both paths begin with.
pub open spec fn common_ancestor(p: Seq<ComponentView>, q: Seq<ComponentView>) -> Seq<
    ComponentView,
> {
    p.take(common_len(p, q, 0))
}

fn same_component(a: &Component, b: &Component) -> (res: bool)
    ensures
        res == (a@ == b@),
{
    match (a, b) {
        (Component::Root, Component::Root) => true,
        (Component::CurDir, Component::CurDir) => true,
        (Component::ParentDir, Component::ParentDir) => true,
        (Component::Normal(x), Component::Normal(y)) => {
            let xs = chars_of(x.as_str());
            is_text(xs.as_slice(), y.as_str())
        },
        _ => false,
    }
}

fn copy_component(c: &Component) -> (res: Component)
    ensures
        res@ == c@,
{
    match c {
        Component::Root => Component::Root,
        Component::CurDir => Component::CurDir,
        Component::ParentDir => Component::ParentDir,
        Component::Normal(name) => Component::Normal(name.clone()),
    }
}

fn push_components(out: &mut Vec<Component>, from: &Vec<Component>, start: usize, end: usize)
    requires
        start <= end <= from@.len(),
    ensures
        component_views(final(out)@) == component_views(old(out)@) + component_views(
            from@,
        ).subrange(start as int, end as int),
{
    let ghost all = component_views(from@);
    let mut i: usize = start;
    assert(all.subrange(start as int, start as int) =~= Seq::empty());
    while i < end
        invariant
            start <= i <= end <= from@.len(),
            all == component_views(from@),
            component_views(out@) == component_views(old(out)@) + all.subrange(
                start as int,
                i as int,
            ),
        decreases end - i,
    {
        let c = copy_component(&from[i]);
        let ghost before = out@;
        out.push(c);
        proof {
            assert(component_views(out@) =~= component_views(before).push(c@));
            assert(all.subrange(start as int, i + 1) =~= all.subrange(start as int, i as int).push(
                all[i as int],
            ));
        }
        i += 1;
    }
}

fn pieces_of(text: &[char]) -> (res: Vec<Vec<char>>)
    ensures
        texts(res@) == split(text@, '/'),
        res@.len() >= 1,
{
    split_at_char(text, '/')
}

fn find_last_component(pieces: &Vec<Vec<char>>, n: usize) -> (res: Option<usize>)
    requires
        n <= pieces@.len(),
    ensures
        match res {
            Some(i) => i < n && last_component(texts(pieces@), n as int) == i,
            None => last_component(texts(pieces@), n as int) < 0,
        },
{
    let ghost all = texts(pieces@);
    let mut i: usize = n;
    while i > 0
        invariant
            i <= n <= pieces@.len(),
            all == texts(pieces@),
            last_component(all, n as int) == last_component(all, i as int),
        decreases i,
    {
        assert(all[i - 1] == pieces@[i - 1]@);
        let piece = pieces[i - 1].as_slice();
        if piece.len() > 0 && (i == 1 || !is_text(piece, ".")) {
            return Some(i - 1);
        }
        i -= 1;
    }
    None
}

fn join_pieces(pieces: &Vec<Vec<char>>, n: usize) -> (res: Vec<char>)
    requires
        n <= pieces@.len(),
    ensures
        res@ == join(texts(pieces@).take(n as int), seq!['/']),
{
    let ghost all = texts(pieces@);
    let mut out: Vec<char> = Vec::new();
    let mut i: usize = 0;
    while i < n
        invariant
            i <= n <= pieces@.len(),
            all == texts(pieces@),
            out@ == join(all.take(i as int), seq!['/']),
        decreases n - i,
    {
        assert(all.take(i + 1).drop_last() =~= all.take(i as int));
        assert(all.take(i + 1).last() == pieces@[i as int]@);
        if i > 0 {
            out.push('/');
        }
        push_all(&mut out, pieces[i].as_slice());
        i += 1;
        assert(out@ =~= join(all.take(i as int), seq!['/']));
    }
    out
}

/// Writes components out.
fn write_components(components: &Vec<Component>) -> (res: String)
    ensures
        res@ == path_text(component_views(components@)),
{
    let ghost views = component_views(components@);
    let ghost all = component_texts(views);
    if components.len() == 1 {
        if let Component::Root = components[0] {
            assert(views =~= seq![ComponentView::Root]);
            return "/".to_owned();
        }
    }
    assert(views != seq![ComponentView::Root]) by {
        if views == seq![ComponentView::Root] {
            assert(views.len() == 1);
            assert(views[0] == components@[0]@);
            assert(seq![ComponentView::Root][0] == ComponentView::Root);
        }
    }
    let mut out: Vec<char> = Vec::new();
    let mut i: usize = 0;
    while i < components.len()
        invariant
            i <= components@.len(),
            views == component_views(components@),
            all == component_texts(views),
            out@ == join(all.take(i as int), seq!['/']),
        decreases components@.len() - i,
    {
        assert(all.take(i + 1).drop_last() == all.take(i as int));
        assert(all.take(i + 1).last() == component_text(components@[i as int]@));
        if i > 0 {
            out.push('/');
        }
        let ghost before = out@;
        match &components[i] {
            Component::Root => {},
            Component::CurDir => push_text(&mut out, "."),
            Component::ParentDir => push_text(&mut out, ".."),
            Component::Normal(name) => push_text(&mut out, name.as_str()),
        }
        assert(out@ =~= before + all[i as int]);
        i += 1;
        assert(out@ =~= join(all.take(i as int), seq!['/']));
    }
    assert(all.take(all.len() as int) == all);
    string_of(out.as_slice())
}

impl SourcePath {
    /// The empty path.
    pub fn new() -> (res: Self)
        ensures
            res.text@ == Seq::<char>::empty(),
            res@ == Seq::<ComponentView>::empty(),
    {
        let res = SourcePath { text: String::new() };
        proof {
            assert(res.text@ =~= Seq::empty());
            let pieces = split(res.text@, '/');
            assert(components_of(pieces, 0) =~= Seq::empty());
            assert(components_of(pieces, 1) =~= Seq::empty());
            assert(res@ =~= Seq::empty());
        }
        res
    }

    /// The path that a text names.
    pub fn parse(text: &str) -> (res: Self)
        ensures
            res.text@ == text@,
    {
        SourcePath { text: text.to_owned() }
    }

    /// A copy of the path.
    pub fn duplicate(&self) -> (res: Self)
        ensures
            res.text@ == self.text@,
    {
        SourcePath { text: self.text.clone() }
    }

    /// How the path is written.
    pub fn to_text(&self) -> (res: String)
        ensures
            res@ == self.text@,
    {
        self.text.clone()
    }

    /// The components of the path.
    pub fn components(&self) -> (res: Vec<Component>)
        ensures
            component_views(res@) == self@,
    {
        let chars = chars_of(self.text.as_str());
        let pieces = pieces_of(chars.as_slice());
        let ghost all = split(self.text@, '/');
        let mut components: Vec<Component> = Vec::new();
        if chars.len() > 0 && chars[0] == '/' {
            components.push(Component::Root);
        }
        let ghost root = component_views(components@);
        assert(root =~= root_of(self.text@));
        let mut i: usize = 0;
        while i < pieces.len()
            invariant
                i <= pieces@.len(),
                all == split(self.text@, '/'),
                texts(pieces@) == all,
                component_views(components@) == root + components_of(all, i as int),
            decreases pieces@.len() - i,
        {
            assert(all[i as int] == pieces@[i as int]@);
            let piece = pieces[i].as_slice();
            let ghost before = components@;
            if piece.len() == 0 {
            } else if is_text(piece, ".") {
                if i == 0 {
                    components.push(Component::CurDir);
                    assert(component_views(components@) =~= component_views(before).push(
                        ComponentView::CurDir,
                    ));
                }
            } else if is_text(piece, "..") {
                components.push(Component::ParentDir);
                assert(component_views(components@) =~= component_views(before).push(
                    ComponentView::ParentDir,
                ));
            } else {
                components.push(Component::Normal(string_of(piece)));
                assert(component_views(components@) =~= component_views(before).push(
                    ComponentView::Normal(piece@),
                ));
            }
            i += 1;
        }
        components
    }

    /// The path of some components, written out.
    fn of_components(components: &Vec<Component>) -> (res: Self)
        requires
            path_wf(component_views(components@)),
        ensures
            res@ == component_views(components@),
    {
        proof {
            law_written_paths_come_back(component_views(components@));
        }
        SourcePath { text: write_components(components) }
    }

    /// The last component, if it is a name.
    pub fn file_name(&self) -> (res: Option<String>)
        ensures
            match res {
                Some(name) => file_name_of(self@) == Some(name@),
                None => file_name_of(self@) is None,
            },
    {
        let components = self.components();
        if components.len() == 0 {
            return None;
        }
        let last = components.len() - 1;
        assert(self@.last() == components@[last as int]@);
        match &components[last] {
            Component::Normal(name) => Some(name.clone()),
            _ => None,
        }
    }

    /// The file name without its extension.
    pub fn file_stem(&self) -> (res: Option<String>)
        ensures
            match res {
                Some(stem) => file_name_of(self@) matches Some(name) && stem@ == stem_of(name),
                None => file_name_of(self@) is None,
            },
    {
        match self.file_name() {
            Some(name) => {
                let chars = chars_of(name.as_str());
                let stem = name_stem(chars.as_slice());
                Some(string_of(stem.as_slice()))
            },
            None => None,
        }
    }

    /// The extension of the file name.
    pub fn extension(&self) -> (res: Option<String>)
        ensures
            match res {
                Some(ext) => file_name_of(self@) matches Some(name) && extension_of(name) == Some(
                    ext@,
                ),
                None => match file_name_of(self@) {
                    Some(name) => extension_of(name) is None,
                    None => true,
                },
            },
    {
        match self.file_name() {
            Some(name) => {
                let chars = chars_of(name.as_str());
                let start = find_extension(chars.as_slice());
                if start == 0 {
                    None
                } else {
                    let ext = copy_range(chars.as_slice(), start, chars.len());
                    assert(ext@ =~= chars@.skip(start as int));
                    Some(string_of(ext.as_slice()))
                }
            },
            None => None,
        }
    }

    /// The path without its last component.
    pub fn parent(&self) -> (res: Option<SourcePath>)
        ensures
            match res {
                Some(parent) => parent_text(self.text@) == Some(parent.text@) && parent_of(self@)
                    == Some(parent@),
                None => parent_text(self.text@) is None && parent_of(self@) is None,
            },
    {
        let chars = chars_of(self.text.as_str());
        let pieces = pieces_of(chars.as_slice());
        proof {
            law_parent(self.text@);
        }
        match find_last_component(&pieces, pieces.len()) {
            None => None,
            Some(last) => match find_last_component(&pieces, last) {
                Some(before) => {
                    let text = join_pieces(&pieces, before + 1);
                    Some(SourcePath { text: string_of(text.as_slice()) })
                },
                None => {
                    if chars.len() > 0 && chars[0] == '/' {
                        Some(SourcePath { text: "/".to_owned() })
                    } else {
                        proof {
                            lemma_text_not_empty(self.text@);
                        }
                        Some(SourcePath { text: "".to_owned() })
                    }
                },
            },
        }
    }

    /// The path without its last component, or as it is if it has none.
    pub fn pop(&self) -> (res: SourcePath)
        ensures
            res@ == popped(self@),
            res.text@ == match parent_text(self.text@) {
                Some(text) => text,
                None => self.text@,
            },
    {
        match self.parent() {
            Some(parent) => parent,
            None => self.duplicate(),
        }
    }

    /// The other path, taken relative to this one.
    pub fn join(&self, other: &SourcePath) -> (res: SourcePath)
        ensures
            res.text@ == joined_text(self.text@, other.text@),
            res@ == joined(self@, other@),
    {
        proof {
            law_joined(self.text@, other.text@);
        }
        let behind = chars_of(other.text.as_str());
        if behind.len() > 0 && behind[0] == '/' {
            return other.duplicate();
        }
        let mut text = chars_of(self.text.as_str());
        if text.len() > 0 && text[text.len() - 1] != '/' {
            text.push('/');
        }
        push_all(&mut text, behind.as_slice());
        SourcePath { text: string_of(text.as_slice()) }
    }

    /// The path with its file name replaced, or added if it has none.
    pub fn with_file_name(&self, name: &str) -> (res: SourcePath)
        ensures
            res.text@ == with_name_text(self.text@, name@),
            res@ == with_name(self@, name@),
    {
        let added = SourcePath::parse(name);
        if self.file_name().is_some() {
            let dir = self.parent().unwrap();
            dir.join(&added)
        } else {
            self.join(&added)
        }
    }

    /// The path with the extension of its file name replaced or added.
    pub fn with_extension(&self, ext: &str) -> (res: SourcePath)
        requires
            ext@.len() > 0,
            !ext@.contains('/'),
        ensures
            res.text@ == with_extension_text(self.text@, ext@),
            res@ == with_extension(self@, ext@),
    {
        proof {
            law_with_extension(self.text@, ext@);
        }
        match self.file_name() {
            None => self.duplicate(),
            Some(name) => {
                let chars = chars_of(name.as_str());
                let mut renamed = name_stem(chars.as_slice());
                push_text(&mut renamed, ".");
                push_text(&mut renamed, ext);
                let all = chars_of(self.text.as_str());
                let mut pieces = pieces_of(all.as_slice());
                let ghost before = split(self.text@, '/');
                proof {
                    lemma_file_name_piece(self.text@);
                }
                let last = find_last_component(&pieces, pieces.len()).unwrap();
                let ghost renamed_text = renamed@;
                pieces.set(last, renamed);
                let text = join_pieces(&pieces, last + 1);
                assert(texts(pieces@).take(last + 1) =~= before.take(last as int).push(
                    renamed_text,
                ));
                SourcePath { text: string_of(text.as_slice()) }
            },
        }
    }

    /// The rest of the path behind a path that it begins with.
    pub fn strip_prefix(&self, prefix: &SourcePath) -> (res: Option<SourcePath>)
        ensures
            match res {
                Some(rest) => prefix@.is_prefix_of(self@) && rest@ == self@.skip(
                    prefix@.len() as int,
                ),
                None => !prefix@.is_prefix_of(self@),
            },
    {
        let components = self.components();
        let wanted = prefix.components();
        let n = common_components(&components, &wanted);
        proof {
            lemma_common_len(self@, prefix@, 0);
            law_named_paths_are_well_formed(self.text@);
        }
        if n == wanted.len() {
            assert(prefix@.is_prefix_of(self@)) by {
                assert(prefix@ =~= self@.subrange(0, prefix@.len() as int));
            }
            let mut rest: Vec<Component> = Vec::new();
            push_components(&mut rest, &components, n, components.len());
            proof {
                assert(component_views(rest@) =~= self@.skip(n as int));
                let tail = self@.skip(n as int);
                assert forall|i: int| 0 <= i < tail.len() implies fits(#[trigger] tail[i], i) by {
                    assert(fits(self@[i + n], i + n));
                }
            }
            Some(SourcePath::of_components(&rest))
        } else {
            assert(!prefix@.is_prefix_of(self@)) by {
                if prefix@.is_prefix_of(self@) {
                    assert(prefix@[n as int] == self@.subrange(0, prefix@.len() as int)[n as int]);
                }
            }
            None
        }
    }

    /// The longest path that both paths begin with.
    pub fn common_ancestor(&self, other: &SourcePath) -> (res: SourcePath)
        ensures
            res@ == common_ancestor(self@, other@),
    {
        let components = self.components();
        let others = other.components();
        let n = common_components(&components, &others);
        let mut common: Vec<Component> = Vec::new();
        push_components(&mut common, &components, 0, n);
        proof {
            law_named_paths_are_well_formed(self.text@);
            assert(component_views(common@) =~= self@.take(n as int));
            let front = self@.take(n as int);
            assert forall|i: int| 0 <= i < front.len() implies fits(#[trigger] front[i], i) by {
                assert(fits(self@[i], i));
            }
        }
        SourcePath::of_components(&common)
    }
}

fn common_components(a: &Vec<Component>, b: &Vec<Component>) -> (res: usize)
    ensures
        res == common_len(component_views(a@), component_views(b@), 0),
        res <= a@.len(),
        res <= b@.len(),
{
    let ghost p = component_views(a@);
    let ghost q = component_views(b@);
    let mut i: usize = 0;
    while i < a.len() && i < b.len()
        invariant
            i <= a@.len(),
            i <= b@.len(),
            p == component_views(a@),
            q == component_views(b@),
            common_len(p, q, 0) == common_len(p, q, i as int),
        decreases a@.len() - i,
    {
        assert(p[i as int] == a@[i as int]@);
        assert(q[i as int] == b@[i as int]@);
        if !same_component(&a[i], &b[i]) {
            return i;
        }
        i += 1;
    }
    i
}

fn find_extension(name: &[char]) -> (res: usize)
    ensures
        res == extension_start(name@),
        res <= name@.len(),
{
    let mut end: usize = name.len();
    while end > 0 && name[end - 1] != '.'
        invariant
            end <= name@.len(),
            end_of_last(name@, CharClass::Is('.'), name@.len() as int) == end_of_last(
                name@,
                CharClass::Is('.'),
                end as int,
            ),
        decreases end,
    {
        end -= 1;
    }
    if end <= 1 {
        0
    } else {
        end
    }
}

fn name_stem(name: &[char]) -> (res: Vec<char>)
    ensures
        res@ == stem_of(name@),
{
    let start = find_extension(name);
    if start == 0 {
        let all = copy_range(name, 0, name.len());
        assert(all@ =~= name@);
        all
    } else {
        copy_range(name, 0, start - 1)
    }
}

/// The part of a name before its extension is not empty.
pub proof fn lemma_stem_not_empty(name: Seq<char>)
    requires
        name.len() > 0,
    ensures
        0 < stem_of(name).len() <= name.len(),
        0 <= extension_start(name) <= name.len(),
{
    lemma_end_of_last_in_range(name, CharClass::Is('.'), name.len() as int);
}

proof fn lemma_end_of_last_in_range(s: Seq<char>, class: CharClass, upto: int)
    requires
        0 <= upto,
    ensures
        0 <= end_of_last(s, class, upto) <= upto,
    decreases upto,
{
    if upto > 0 {
        lemma_end_of_last_in_range(s, class, upto - 1);
    }
}

/// The common part is a prefix of both paths and ends where they differ.
pub proof fn lemma_common_len(p: Seq<ComponentView>, q: Seq<ComponentView>, from: int)
    requires
        0 <= from <= p.len(),
        from <= q.len(),
    ensures
        from <= common_len(p, q, from) <= p.len(),
        common_len(p, q, from) <= q.len(),
        forall|i: int| from <= i < common_len(p, q, from) ==> #[trigger] p[i] == q[i],
        common_len(p, q, from) < p.len() && common_len(p, q, from) < q.len() ==> p[common_len(
            p,
            q,
            from,
        )] != q[common_len(p, q, from)],
    decreases p.len() - from,
{
    if from < p.len() && from < q.len() && p[from] == q[from] {
        lemma_common_len(p, q, from + 1);
    }
}

/// The common ancestor is a prefix of both paths, and every common prefix is a
/// prefix of it.
pub proof fn law_common_ancestor(
    p: Seq<ComponentView>,
    q: Seq<ComponentView>,
    r: Seq<ComponentView>,
)
    ensures
        common_ancestor(p, q).is_prefix_of(p),
        common_ancestor(p, q).is_prefix_of(q),
        r.is_prefix_of(p) && r.is_prefix_of(q) ==> r.is_prefix_of(common_ancestor(p, q)),
{
    lemma_common_len(p, q, 0);
    let n = common_len(p, q, 0);
    let c = common_ancestor(p, q);
    assert(c =~= p.subrange(0, n));
    assert(c =~= q.subrange(0, n));
    if r.is_prefix_of(p) && r.is_prefix_of(q) {
        assert(r == p.subrange(0, r.len() as int));
        assert(r == q.subrange(0, r.len() as int));
        if r.len() > n {
            assert(r[n] == p[n]);
            assert(r[n] == q[n]);
        }
        assert(r =~= c.subrange(0, r.len() as int));
    }
}

proof fn lemma_components_fit(pieces: Seq<Seq<char>>, n: int, rooted: bool)
    requires
        0 <= n <= pieces.len(),
        rooted ==> pieces[0].len() == 0,
        forall|i: int| 0 <= i < pieces.len() ==> !(#[trigger] pieces[i]).contains('/'),
    ensures
        ({
            let p = components_of(pieces, n);
            &&& p.len() <= n
            &&& forall|i: int| 0 <= i < p.len() ==> fits(#[trigger] p[i], i) && (rooted
                ==> !(p[i] is CurDir)) && !(p[i] is Root)
        }),
    decreases n,
{
    if n > 0 {
        lemma_components_fit(pieces, n - 1, rooted);
        assert(!pieces[n - 1].contains('/'));
    }
}

/// Every text names a well-formed path.
pub proof fn law_named_paths_are_well_formed(text: Seq<char>)
    ensures
        path_wf(path_of(text)),
{
    let pieces = split(text, '/');
    lemma_split_pieces(text, '/');
    let rooted = text.len() > 0 && text[0] == '/';
    if rooted {
        lemma_split_front(text, '/');
    }
    lemma_components_fit(pieces, pieces.len() as int, rooted);
    let rest = components_of(pieces, pieces.len() as int);
    let p = path_of(text);
    assert forall|i: int| 0 <= i < p.len() implies fits(#[trigger] p[i], i) by {
        if rooted {
            if i > 0 {
                assert(p[i] == rest[i - 1]);
            }
        } else {
            assert(p[i] == rest[i]);
        }
    }
}

proof fn lemma_split_front(s: Seq<char>, c: char)
    requires
        s.len() > 0,
        s[0] == c,
    ensures
        split(s, c)[0].len() == 0,
        split(s, c).len() >= 2,
    decreases s.len(),
{
    let front = s.drop_last();
    lemma_split_pieces(front, c);
    if front.len() > 0 {
        lemma_split_front(front, c);
    } else {
        assert(split(front, c)[0].len() == 0);
    }
}

proof fn lemma_components_come_back(p: Seq<ComponentView>, n: int)
    requires
        path_wf(p),
        0 <= n <= p.len(),
    ensures
        components_of(component_texts(p), n) == if n > 0 && p[0] is Root {
            p.subrange(1, n)
        } else {
            p.take(n)
        },
    decreases n,
{
    reveal_strlit(".");
    reveal_strlit("..");
    if n > 0 {
        lemma_components_come_back(p, n - 1);
        let c = p[n - 1];
        assert(fits(c, n - 1));
        assert(component_texts(p)[n - 1] == component_text(c));
        assert("."@.len() == 1);
        assert(".."@.len() == 2);
        if p[0] is Root {
            if n == 1 {
                assert(p.subrange(1, 1) =~= Seq::empty());
                assert(p.take(0) =~= Seq::empty());
            } else {
                assert(p.subrange(1, n) =~= p.subrange(1, n - 1).push(c));
            }
        } else {
            assert(p.take(n) =~= p.take(n - 1).push(c));
        }
    } else {
        assert(p.take(0) =~= Seq::empty());
    }
}

proof fn lemma_join_first(pieces: Seq<Seq<char>>, sep: Seq<char>)
    requires
        pieces.len() > 0,
    ensures
        pieces[0].is_prefix_of(join(pieces, sep)),
        pieces.len() > 1 ==> (pieces[0] + sep).is_prefix_of(join(pieces, sep)),
    decreases pieces.len(),
{
    let all = join(pieces, sep);
    if pieces.len() == 1 {
        assert(pieces[0] =~= all.subrange(0, pieces[0].len() as int));
    } else {
        let front = pieces.drop_last();
        lemma_join_first(front, sep);
        assert(front[0] == pieces[0]);
        let head = join(front, sep);
        let first = pieces[0] + sep;
        if front.len() == 1 {
            assert(first =~= all.subrange(0, first.len() as int));
        } else {
            assert(first =~= head.subrange(0, first.len() as int));
            assert(first =~= all.subrange(0, first.len() as int));
        }
        assert(pieces[0] =~= all.subrange(0, pieces[0].len() as int)) by {
            assert(pieces[0] =~= first.subrange(0, pieces[0].len() as int));
        }
    }
}

/// A path that is written out names itself.
pub proof fn law_written_paths_come_back(p: Seq<ComponentView>)
    requires
        path_wf(p),
    ensures
        path_of(path_text(p)) == p,
{
    reveal_strlit(".");
    reveal_strlit("..");
    reveal_strlit("/");
    let text = path_text(p);
    if p == seq![ComponentView::Root] {
        assert(text =~= seq!['/']);
        assert(text.drop_last() =~= Seq::empty());
        let pieces = split(text, '/');
        assert(split(Seq::<char>::empty(), '/') =~= seq![Seq::<char>::empty()]);
        assert(pieces =~= seq![Seq::empty(), Seq::empty()]);
        assert(components_of(pieces, 0) =~= Seq::empty());
        assert(components_of(pieces, 1) =~= Seq::empty());
        assert(components_of(pieces, 2) =~= Seq::empty());
        assert(path_of(text) =~= p);
    } else if p.len() == 0 {
        assert(text =~= Seq::empty());
        let pieces = split(text, '/');
        assert(components_of(pieces, 0) =~= Seq::empty());
        assert(components_of(pieces, 1) =~= Seq::empty());
        assert(path_of(text) =~= p);
    } else {
        let names = component_texts(p);
        assert forall|i: int| 0 <= i < names.len() implies !(#[trigger] names[i]).contains('/') by {
            assert(fits(p[i], i));
        }
        law_split_join(names, '/');
        lemma_join_first(names, seq!['/']);
        lemma_components_come_back(p, p.len() as int);
        assert(names[0] == component_text(p[0]));
        assert(fits(p[0], 0));
        if p[0] is Root {
            if p.len() == 1 {
                assert(p =~= seq![ComponentView::Root]);
            }
            let first = names[0] + seq!['/'];
            assert(first[0] == text.subrange(0, first.len() as int)[0]);
            assert(text[0] == '/');
            assert(p =~= seq![ComponentView::Root] + p.subrange(1, p.len() as int));
        } else {
            assert(names[0].len() > 0);
            assert(names[0][0] == text.subrange(0, names[0].len() as int)[0]);
            assert(text[0] == names[0][0]);
            assert(text[0] != '/') by {
                if text[0] == '/' {
                    assert(names[0].contains('/'));
                }
            }
            assert(p.take(p.len() as int) =~= p);
            assert(path_of(text) =~= p);
        }
    }
}

/// The component that a piece is.
pub open spec fn piece_component(piece: Seq<char>) -> ComponentView {
    if piece == "."@ {
        ComponentView::CurDir
    } else if piece == ".."@ {
        ComponentView::ParentDir
    } else {
        ComponentView::Normal(piece)
    }
}

proof fn lemma_last_component(pieces: Seq<Seq<char>>, n: int)
    requires
        0 <= n <= pieces.len(),
    ensures
        ({
            let last = last_component(pieces, n);
            &&& -1 <= last < n || (n == 0 && last == -1)
            &&& last >= 0 ==> is_component(pieces, last) && components_of(pieces, n)
                == components_of(pieces, last).push(piece_component(pieces[last]))
            &&& last < 0 ==> components_of(pieces, n) == Seq::<ComponentView>::empty()
        }),
    decreases n,
{
    if n > 0 {
        lemma_last_component(pieces, n - 1);
    }
}

proof fn lemma_components_of_front(pieces: Seq<Seq<char>>, more: Seq<Seq<char>>, n: int)
    requires
        0 <= n <= pieces.len(),
        n <= more.len(),
        forall|i: int| 0 <= i < n ==> #[trigger] pieces[i] == more[i],
    ensures
        components_of(pieces, n) == components_of(more, n),
    decreases n,
{
    if n > 0 {
        lemma_components_of_front(pieces, more, n - 1);
        assert(pieces[n - 1] == more[n - 1]);
    }
}

/// A path that has a component is not written as nothing.
proof fn lemma_text_not_empty(text: Seq<char>)
    ensures
        text.len() == 0 ==> last_component(split(text, '/'), split(text, '/').len() as int) < 0,
        text.len() == 0 ==> path_of(text) == Seq::<ComponentView>::empty(),
        text.len() > 0 ==> path_of(text).len() > 0,
{
    let pieces = split(text, '/');
    lemma_split_pieces(text, '/');
    if text.len() == 0 {
        assert(pieces[0].len() == 0);
        assert(last_component(pieces, 1) == last_component(pieces, 0));
        assert(components_of(pieces, 0) =~= Seq::empty());
        assert(components_of(pieces, 1) =~= Seq::empty());
        assert(path_of(text) =~= Seq::empty());
    } else if text[0] != '/' {
        lemma_first_piece(text, '/');
        lemma_last_component(pieces, pieces.len() as int);
        lemma_some_component(pieces, pieces.len() as int);
    }
}

proof fn lemma_some_component(pieces: Seq<Seq<char>>, n: int)
    requires
        0 < n <= pieces.len(),
        pieces[0].len() > 0,
    ensures
        last_component(pieces, n) >= 0,
    decreases n,
{
    if n > 1 {
        lemma_some_component(pieces, n - 1);
    }
}

/// The first piece of a text that does not begin with the separator is not
/// empty.
proof fn lemma_first_piece(s: Seq<char>, c: char)
    requires
        s.len() > 0,
        s[0] != c,
    ensures
        split(s, c)[0].len() > 0,
        split(s, c)[0][0] == s[0],
    decreases s.len(),
{
    let front = s.drop_last();
    lemma_split_pieces(front, c);
    if front.len() > 0 {
        lemma_first_piece(front, c);
    } else {
        assert(split(front, c)[0].len() == 0);
    }
}

proof fn lemma_joined_root(pieces: Seq<Seq<char>>)
    requires
        pieces.len() > 0,
    ensures
        pieces[0].len() > 0 && pieces[0][0] != '/' ==> root_of(join(pieces, seq!['/']))
            == Seq::<ComponentView>::empty(),
        pieces[0].len() == 0 && pieces.len() > 1 ==> root_of(join(pieces, seq!['/'])) == seq![
            ComponentView::Root,
        ],
{
    let text = join(pieces, seq!['/']);
    lemma_join_first(pieces, seq!['/']);
    if pieces[0].len() > 0 {
        assert(pieces[0][0] == text.subrange(0, pieces[0].len() as int)[0]);
    } else if pieces.len() > 1 {
        let first = pieces[0] + seq!['/'];
        assert(first[0] == text.subrange(0, first.len() as int)[0]);
    }
}

/// The path of the text without its last component is the path without its last
/// component.
pub proof fn law_parent(text: Seq<char>)
    ensures
        match parent_text(text) {
            Some(parent) => parent_of(path_of(text)) == Some(path_of(parent)),
            None => parent_of(path_of(text)) is None,
        },
{
    let pieces = split(text, '/');
    let n = pieces.len() as int;
    let last = last_component(pieces, n);
    let all = path_of(text);
    lemma_split_pieces(text, '/');
    lemma_last_component(pieces, n);
    lemma_text_not_empty(text);
    let rooted = text.len() > 0 && text[0] == '/';
    if last < 0 {
        assert(all =~= root_of(text));
    } else {
        let before = last_component(pieces, last);
        lemma_last_component(pieces, last);
        let comps = components_of(pieces, last);
        assert(all =~= (root_of(text) + comps).push(piece_component(pieces[last])));
        assert(all.drop_last() =~= root_of(text) + comps);
        assert(all.last() == piece_component(pieces[last]));
        if rooted {
            lemma_split_front(text, '/');
        } else {
            lemma_first_piece(text, '/');
        }
        if before >= 0 {
            let front = pieces.take(before + 1);
            let parent = join(front, seq!['/']);
            assert forall|i: int| 0 <= i < front.len() implies !(#[trigger] front[i]).contains(
                '/',
            ) by {
                assert(front[i] == pieces[i]);
            }
            law_split_join(front, '/');
            lemma_components_of_front(front, pieces, before + 1);
            lemma_last_component(pieces, before + 1);
            lemma_components_of_front(front, pieces, before);
            lemma_joined_root(front);
            assert(components_of(pieces, before + 1) == comps) by {
                assert(last_component(pieces, before + 1) == before);
            }
            if rooted {
                assert(before > 0);
                assert(front[0].len() == 0);
            } else {
                assert(front[0] == pieces[0]);
                assert(!pieces[0].contains('/'));
                assert(front[0][0] != '/');
            }
            assert(path_of(parent) =~= all.drop_last());
        } else if rooted {
            reveal_strlit("/");
            assert("/"@ =~= seq!['/']);
            assert(seq![ComponentView::Root][0] is Root);
            law_written_paths_come_back(seq![ComponentView::Root]);
            assert(path_of("/"@) =~= all.drop_last());
        } else {
            reveal_strlit("");
            assert(""@ =~= Seq::<char>::empty());
            lemma_text_not_empty(""@);
            assert(all.drop_last() =~= Seq::empty());
        }
    }
}

/// The components of pieces behind other pieces, where a `.` never counts.
pub open spec fn components_behind(pieces: Seq<Seq<char>>, n: int) -> Seq<ComponentView>
    decreases n,
{
    if n <= 0 {
        Seq::empty()
    } else {
        let before = components_behind(pieces, n - 1);
        let piece = pieces[n - 1];
        if piece.len() == 0 || piece == "."@ {
            before
        } else {
            before.push(piece_component(piece))
        }
    }
}

/// The components of pieces behind others are those of the others and then their
/// own.
pub proof fn lemma_components_behind(front: Seq<Seq<char>>, pieces: Seq<Seq<char>>, n: int)
    requires
        front.len() > 0,
        0 <= n <= pieces.len(),
    ensures
        components_of(front + pieces, front.len() + n) == components_of(
            front,
            front.len() as int,
        ) + components_behind(pieces, n),
    decreases n,
{
    let all = front + pieces;
    if n == 0 {
        lemma_components_of_front(all, front, front.len() as int);
        assert(components_of(front, front.len() as int) + Seq::<ComponentView>::empty()
            =~= components_of(front, front.len() as int));
    } else {
        lemma_components_behind(front, pieces, n - 1);
        assert(all[front.len() + n - 1] == pieces[n - 1]);
        assert(components_of(all, front.len() + n) =~= components_of(front, front.len() as int)
            + components_behind(pieces, n));
    }
}

proof fn lemma_behind_or_not(pieces: Seq<Seq<char>>, n: int)
    requires
        0 <= n <= pieces.len(),
    ensures
        components_behind(pieces, n) == (if n > 0 && pieces[0] == "."@ {
            components_of(pieces, n).skip(1)
        } else {
            components_of(pieces, n)
        }),
        n > 0 && pieces[0] == "."@ ==> components_of(pieces, n).len() > 0 && components_of(
            pieces,
            n,
        )[0] is CurDir,
        (n == 0 || pieces[0] != "."@) && components_of(pieces, n).len() > 0 ==> !(components_of(
            pieces,
            n,
        )[0] is CurDir),
        components_of(pieces, n).len() > 0 ==> !(components_of(pieces, n)[0] is Root),
    decreases n,
{
    reveal_strlit(".");
    if n > 0 {
        lemma_behind_or_not(pieces, n - 1);
        let before = components_of(pieces, n - 1);
        let after = components_of(pieces, n);
        if n == 1 {
            if pieces[0] == "."@ {
                assert("."@.len() == 1);
                assert(after.skip(1) =~= Seq::empty());
            }
        } else if pieces[0] == "."@ && after.len() > before.len() {
            assert(after.skip(1) =~= before.skip(1).push(after.last()));
        }
    }
}

/// The path of one text taken relative to another is the one path taken relative
/// to the other.
pub proof fn law_joined(a: Seq<char>, b: Seq<char>)
    ensures
        path_of(joined_text(a, b)) == joined(path_of(a), path_of(b)),
{
    let p = path_of(a);
    let q = path_of(b);
    let pieces_b = split(b, '/');
    let nb = pieces_b.len() as int;
    lemma_text_not_empty(a);
    lemma_split_pieces(b, '/');
    lemma_behind_or_not(pieces_b, nb);
    if b.len() > 0 && b[0] == '/' {
        assert(q[0] is Root);
    } else {
        assert(q =~= components_of(pieces_b, nb));
        if a.len() == 0 {
            assert(a + b =~= b);
            assert(p + q =~= q);
        } else {
            let base = if a.last() == '/' {
                a.drop_last()
            } else {
                a
            };
            let text = joined_text(a, b);
            if a.last() == '/' {
                assert(base.push('/') =~= a);
            }
            assert(text =~= base.push('/') + b);
            lemma_split_around(base, b, '/');
            lemma_split_pieces(base, '/');
            let front = split(base, '/');
            lemma_components_behind(front, pieces_b, nb);
            let of_base = components_of(front, front.len() as int);
            assert(components_of(split(a, '/'), split(a, '/').len() as int) == of_base) by {
                if a.last() == '/' {
                    assert(split(a, '/') =~= front.push(Seq::empty()));
                    lemma_components_of_front(split(a, '/'), front, front.len() as int);
                }
            }
            assert(text[0] == a[0]);
            assert(root_of(text) == root_of(a));
            assert(path_of(text) =~= p + components_behind(pieces_b, nb));
        }
    }
}

/// The file name of a path is the last piece that is a component.
proof fn lemma_file_name_piece(text: Seq<char>)
    requires
        file_name_of(path_of(text)) is Some,
    ensures
        ({
            let pieces = split(text, '/');
            let last = last_component(pieces, pieces.len() as int);
            &&& 0 <= last < pieces.len()
            &&& pieces[last] == file_name_of(path_of(text)).unwrap()
            &&& path_of(text).drop_last() == root_of(text) + components_of(pieces, last)
            &&& is_name(pieces[last])
        }),
{
    let pieces = split(text, '/');
    let n = pieces.len() as int;
    let last = last_component(pieces, n);
    let all = path_of(text);
    lemma_split_pieces(text, '/');
    lemma_last_component(pieces, n);
    if last < 0 {
        assert(all =~= root_of(text));
    } else {
        assert(all =~= (root_of(text) + components_of(pieces, last)).push(
            piece_component(pieces[last]),
        ));
        assert(all.last() == piece_component(pieces[last]));
        assert(all.drop_last() =~= root_of(text) + components_of(pieces, last));
        assert(!pieces[last].contains('/'));
    }
}

/// The path of the text with another extension is the path with this extension.
pub proof fn law_with_extension(text: Seq<char>, ext: Seq<char>)
    requires
        ext.len() > 0,
        !ext.contains('/'),
    ensures
        path_of(with_extension_text(text, ext)) == with_extension(path_of(text), ext),
{
    if file_name_of(path_of(text)) is Some {
        reveal_strlit(".");
        reveal_strlit("..");
        let pieces = split(text, '/');
        let last = last_component(pieces, pieces.len() as int);
        lemma_file_name_piece(text);
        let name = pieces[last];
        lemma_stem_not_empty(name);
        let renamed = stem_of(name) + "."@ + ext;
        let front = pieces.take(last).push(renamed);
        lemma_split_pieces(text, '/');
        assert(!renamed.contains('/')) by {
            if renamed.contains('/') {
                let k = choose|k: int| 0 <= k < renamed.len() && renamed[k] == '/';
                let m = stem_of(name).len() as int;
                if k < m {
                    assert(name[k] == '/');
                    assert(name.contains('/'));
                } else if k > m {
                    assert(ext[k - m - 1] == '/');
                }
            }
        }
        assert(renamed.len() >= 3);
        assert forall|i: int| 0 <= i < front.len() implies !(#[trigger] front[i]).contains('/') by {
            if i < last {
                assert(front[i] == pieces[i]);
                assert(!pieces[i].contains('/'));
            }
        }
        law_split_join(front, '/');
        lemma_components_of_front(front, pieces, last);
        assert(components_of(front, last + 1) == components_of(front, last).push(
            ComponentView::Normal(renamed),
        ));
        let out = join(front, seq!['/']);
        lemma_joined_root(front);
        if last > 0 {
            assert(front[0] == pieces[0]);
            if text.len() > 0 && text[0] == '/' {
                lemma_split_front(text, '/');
            } else {
                lemma_text_not_empty(text);
                lemma_first_piece(text, '/');
                assert(!pieces[0].contains('/'));
                assert(pieces[0][0] != '/');
            }
        } else {
            assert(front[0] == renamed);
            if renamed[0] == '/' {
                assert(renamed.contains('/'));
            }
            lemma_text_not_empty(text);
            if text[0] == '/' {
                lemma_split_front(text, '/');
            }
        }
        assert(root_of(out) == root_of(text));
        let p = path_of(text);
        assert(path_of(out) =~= p.drop_last().push(ComponentView::Normal(renamed)));
    }
}

/// A name is taken apart at its last dot: what stands before it is the stem, and
/// what stands behind it the extension.
pub proof fn law_stems_and_extensions(stem: Seq<char>, ext: Seq<char>)
    requires
        stem.len() > 0,
        !ext.contains('.'),
    ensures
        stem_of(stem + "."@ + ext) == stem,
        extension_of(stem + "."@ + ext) == Some(ext),
{
    reveal_strlit(".");
    let name = stem + "."@ + ext;
    let n = stem.len() as int;
    assert(name[n] == '.');
    assert forall|j: int| n < j < name.len() implies name[j] != '.' by {
        assert(name[j] == ext[j - n - 1]);
        if ext[j - n - 1] == '.' {
            assert(ext.contains('.'));
        }
    }
    lemma_trailing(name, CharClass::Is('.'), n + 1, name.len() as int);
    assert(end_of_last(name, CharClass::Is('.'), n + 1) == n + 1);
    assert(name.take(n) =~= stem);
    assert(name.skip(n + 1) =~= ext);
}

/// A name is its stem, or its stem, a dot and its extension; the extension holds
/// no dot. A name without a dot behind its first character has none.
pub proof fn law_names_are_stem_and_extension(name: Seq<char>)
    requires
        name.len() > 0,
    ensures
        match extension_of(name) {
            Some(ext) => name == stem_of(name) + "."@ + ext && !ext.contains('.'),
            None => name == stem_of(name),
        },
        (forall|i: int| 1 <= i < name.len() ==> #[trigger] name[i] != '.') ==> extension_of(name)
            is None,
{
    reveal_strlit(".");
    let class = CharClass::Is('.');
    lemma_end_of_last_holds(name, class, name.len() as int);
    let end = end_of_last(name, class, name.len() as int);
    if let Some(ext) = extension_of(name) {
        assert(name =~= stem_of(name) + "."@ + ext);
        if ext.contains('.') {
            let k = choose|k: int| 0 <= k < ext.len() && ext[k] == '.';
            assert(name[end + k] == '.');
            assert(in_class(class, name[end + k]));
        }
        assert(name[end - 1] == '.');
    }
}

proof fn lemma_end_of_last_holds(s: Seq<char>, class: CharClass, upto: int)
    requires
        0 <= upto <= s.len(),
    ensures
        ({
            let end = end_of_last(s, class, upto);
            &&& 0 <= end <= upto
            &&& end > 0 ==> in_class(class, s[end - 1])
            &&& forall|k: int| end <= k < upto ==> !in_class(class, #[trigger] s[k])
        }),
    decreases upto,
{
    if upto > 0 {
        lemma_end_of_last_holds(s, class, upto - 1);
    }
}

} // verus!
