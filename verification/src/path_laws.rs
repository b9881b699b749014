//! What the texts of paths name, and what taking them apart and putting them
//! together does to the texts.

use crate::paths::{
    component_text, component_texts, components_behind, components_of, file_name_of, is_component,
    is_name, joined, joined_text, last_component, lemma_components_behind, parent_of, parent_text,
    path_of, path_text, piece_component, popped, stem_of, with_extension, with_extension_text,
    with_name, with_name_text, ComponentView,
};
use crate::text::{
    join, law_join_split, law_split_join, lemma_split_around, lemma_split_pieces, split,
};
use vstd::prelude::*;

verus! {

/// A path is written component by component, with one separator between every
/// two: the root as the separator at the front, `.` and `..` as such, names as
/// they are.
pub proof fn law_paths_are_written_with_separators(p: Seq<ComponentView>, c: ComponentView)
    requires
        !(c is Root),
    ensures
        ({
            let text = match c {
                ComponentView::Normal(name) => name,
                ComponentView::ParentDir => ".."@,
                _ => "."@,
            };
            &&& path_text(seq![c]) == text
            &&& path_text(seq![ComponentView::Root]) == "/"@
            &&& path_text(seq![ComponentView::Root, c]) == "/"@ + text
            &&& p.len() > 0 && p != seq![ComponentView::Root] ==> path_text(p.push(c))
                == path_text(p) + "/"@ + text
        }),
        path_text(Seq::empty()).len() == 0,
{
    reveal_strlit("/");
    let sep = seq!['/'];
    assert("/"@ =~= sep);
    let root = seq![ComponentView::Root];
    let alone = seq![c];
    let below = seq![ComponentView::Root, c];
    assert(alone[0] != root[0]);
    assert(alone != root);
    assert(component_texts(alone) =~= seq![component_text(c)]);
    assert(below.len() == 2 && root.len() == 1);
    assert(component_texts(below) =~= seq![Seq::empty(), component_text(c)]);
    assert(component_texts(below).drop_last() =~= seq![Seq::<char>::empty()]);
    assert(component_texts(below).last() == component_text(c));
    assert(join(seq![Seq::<char>::empty()], sep) == Seq::<char>::empty());
    assert(below != root);
    assert(path_text(below) =~= "/"@ + component_text(c));
    if p.len() > 0 && p != root {
        let all = p.push(c);
        assert(all.len() > 1);
        assert(component_texts(all).drop_last() =~= component_texts(p));
        assert(component_texts(all).last() == component_text(c));
    }
    assert(component_texts(Seq::empty()).len() == 0);
}

proof fn lemma_nothing_in_front(piece: Seq<char>, pieces: Seq<Seq<char>>, n: int)
    requires
        piece.len() == 0 || piece == "."@,
        0 <= n <= pieces.len(),
    ensures
        components_behind(seq![piece] + pieces, n + 1) == components_behind(pieces, n),
    decreases n,
{
    let all = seq![piece] + pieces;
    if n > 0 {
        lemma_nothing_in_front(piece, pieces, n - 1);
        assert(all[n] == pieces[n - 1]);
    } else {
        assert(all[0] == piece);
        assert(components_behind(all, 0) =~= Seq::empty());
    }
}

proof fn lemma_path_behind(a: Seq<char>, b: Seq<char>)
    requires
        a.len() > 0,
    ensures
        path_of(a.push('/') + b) == path_of(a) + components_behind(
            split(b, '/'),
            split(b, '/').len() as int,
        ),
{
    let whole = a.push('/') + b;
    let front = split(a, '/');
    let pieces = split(b, '/');
    lemma_split_around(a, b, '/');
    lemma_split_pieces(a, '/');
    lemma_components_behind(front, pieces, pieces.len() as int);
    assert(whole[0] == a[0]);
    assert(path_of(whole) =~= path_of(a) + components_behind(pieces, pieces.len() as int));
}

/// Repeated separators count as one, a `.` between separators does not count, and
/// neither does a separator at the end.
pub proof fn law_redundant_separators_do_not_count(a: Seq<char>, b: Seq<char>)
    requires
        a.len() > 0,
    ensures
        path_of(a + "//"@ + b) == path_of(a + "/"@ + b),
        path_of(a + "/./"@ + b) == path_of(a + "/"@ + b),
        path_of(a + "/"@) == path_of(a),
        path_of("//"@ + b) == path_of("/"@ + b),
        path_of("/./"@ + b) == path_of("/"@ + b),
{
    lemma_redundant_at_the_front(b);
    reveal_strlit("/");
    reveal_strlit("//");
    reveal_strlit("/./");
    reveal_strlit(".");
    let none = Seq::<char>::empty();
    let dot = seq!['.'];
    let pieces = split(b, '/');
    let n = pieces.len() as int;
    assert(split(none, '/') =~= seq![none]);
    assert("."@ =~= dot);
    assert(dot.drop_last() =~= none);
    assert(split(dot, '/') =~= seq![dot]) by {
        assert(seq![none].drop_last().push(none.push('.')) =~= seq![dot]);
    }
    assert(a + "/"@ + b =~= a.push('/') + b);
    lemma_path_behind(a, b);
    let twice = none.push('/') + b;
    assert(a + "//"@ + b =~= a.push('/') + twice);
    lemma_path_behind(a, twice);
    lemma_split_around(none, b, '/');
    lemma_nothing_in_front(none, pieces, n);
    let dotted = dot.push('/') + b;
    assert(a + "/./"@ + b =~= a.push('/') + dotted);
    lemma_path_behind(a, dotted);
    lemma_split_around(dot, b, '/');
    lemma_nothing_in_front(dot, pieces, n);
    assert(a + "/"@ =~= a.push('/') + none);
    lemma_path_behind(a, none);
    assert(components_behind(seq![none], 0) =~= Seq::empty());
    assert(components_behind(seq![none], 1) =~= Seq::empty());
    assert(path_of(a) + Seq::<ComponentView>::empty() =~= path_of(a));
}

proof fn lemma_redundant_at_the_front(b: Seq<char>)
    ensures
        path_of("//"@ + b) == path_of("/"@ + b),
        path_of("/./"@ + b) == path_of("/"@ + b),
{
    reveal_strlit("/");
    reveal_strlit("//");
    reveal_strlit("/./");
    reveal_strlit(".");
    let none = Seq::<char>::empty();
    let dot = seq!['.'];
    let pieces = split(b, '/');
    let n = pieces.len() as int;
    let root = seq!['/'];
    assert(split(none, '/') =~= seq![none]);
    assert("."@ =~= dot);
    assert(dot.drop_last() =~= none);
    assert(split(dot, '/') =~= seq![dot]) by {
        assert(seq![none].drop_last().push(none.push('.')) =~= seq![dot]);
    }
    let once = none.push('/') + b;
    let twice = none.push('/') + once;
    let behind = dot.push('/') + b;
    let dotted = none.push('/') + behind;
    assert("/"@ + b =~= once);
    assert("//"@ + b =~= twice);
    assert("/./"@ + b =~= dotted);
    lemma_split_around(none, b, '/');
    lemma_split_around(none, once, '/');
    lemma_split_around(dot, b, '/');
    lemma_split_around(none, behind, '/');
    lemma_components_behind(seq![none], pieces, n);
    lemma_components_behind(seq![none], seq![none] + pieces, n + 1);
    lemma_components_behind(seq![none], seq![dot] + pieces, n + 1);
    lemma_nothing_in_front(none, pieces, n);
    lemma_nothing_in_front(dot, pieces, n);
    assert(once[0] == '/' && twice[0] == '/' && dotted[0] == '/');
}

/// An absolute path replaces the one that it is taken relative to; any other goes
/// behind it, with exactly one separator between the two unless there is nothing
/// before.
pub proof fn law_joining_texts(a: Seq<char>, b: Seq<char>)
    ensures
        joined_text(a, "/"@ + b) == "/"@ + b,
        (b.len() == 0 || b[0] != '/') ==> {
            &&& joined_text(Seq::empty(), b) == b
            &&& joined_text(a + "/"@, b) == a + "/"@ + b
            &&& a.len() > 0 && a.last() != '/' ==> joined_text(a, b) == a + "/"@ + b
        },
{
    reveal_strlit("/");
    assert(("/"@ + b)[0] == '/');
    assert(Seq::<char>::empty() + b =~= b);
    assert((a + "/"@).last() == '/');
    assert(a.push('/') + b =~= a + "/"@ + b);
}

/// What joining, taking the parent, and naming do to components.
pub proof fn law_paths_by_components(
    p: Seq<ComponentView>,
    q: Seq<ComponentView>,
    c: ComponentView,
    name: Seq<char>,
    ext: Seq<char>,
)
    ensures
        q.len() > 0 && q[0] is Root ==> joined(p, q) == q,
        q.len() == 0 || q[0] is ParentDir || q[0] is Normal ==> joined(p, q) == p + q,
        p.len() > 0 && q.len() > 0 && q[0] is CurDir ==> joined(p, q) == p + q.skip(1),
        joined(Seq::empty(), q) == q,
        !(c is Root) ==> parent_of(p.push(c)) == Some(p) && popped(p.push(c)) == p,
        parent_of(p.push(ComponentView::Root)) is None,
        parent_of(Seq::empty()) is None,
        file_name_of(p.push(ComponentView::Normal(name))) == Some(name),
        !(c is Normal) ==> file_name_of(p.push(c)) is None,
        file_name_of(Seq::empty()) is None,
        with_name(p.push(ComponentView::Normal(name)), ext) == joined(p, path_of(ext)),
        file_name_of(p) is None ==> with_name(p, ext) == joined(p, path_of(ext))
            && with_extension(p, ext) == p,
        with_extension(p.push(ComponentView::Normal(name)), ext) == p.push(
            ComponentView::Normal(stem_of(name) + "."@ + ext),
        ),
{
    assert(p.push(c).drop_last() =~= p);
    assert(p.push(ComponentView::Normal(name)).drop_last() =~= p);
    assert(Seq::<ComponentView>::empty() + q =~= q);
}

/// The text ends with a component: not with a separator, and not with a `.`
/// behind one.
pub open spec fn ends_with_component(dir: Seq<char>) -> bool {
    &&& dir.len() > 0
    &&& dir.last() != '/'
    &&& !(dir.len() >= 2 && dir.last() == '.' && dir[dir.len() - 2] == '/')
}

proof fn lemma_last_piece(dir: Seq<char>)
    requires
        ends_with_component(dir),
    ensures
        is_component(split(dir, '/'), split(dir, '/').len() - 1),
        split(dir, '/').len() > 0,
{
    reveal_strlit(".");
    let pieces = split(dir, '/');
    let front = dir.drop_last();
    lemma_split_pieces(dir, '/');
    lemma_split_pieces(front, '/');
    let n = pieces.len() as int;
    assert(pieces.last().len() > 0);
    if pieces[n - 1] == "."@ && n > 1 {
        law_join_split(dir, '/');
        let before = join(pieces.drop_last(), seq!['/']);
        assert(dir == before + seq!['/'] + pieces.last());
        assert(dir[dir.len() - 1] == '.');
        assert(dir[dir.len() - 2] == '/');
    }
}

/// A file in a directory: its name is the name behind the last separator, its
/// directory the text before that, and another name or another extension changes
/// nothing else.
pub proof fn law_files_in_directories(
    dir: Seq<char>,
    name: Seq<char>,
    other: Seq<char>,
    ext: Seq<char>,
)
    requires
        is_name(name),
        dir.len() > 0,
        other.len() > 0 ==> other[0] != '/',
    ensures
        ({
            let file = dir + "/"@ + name;
            &&& path_of(file) == path_of(dir).push(ComponentView::Normal(name))
            &&& file_name_of(path_of(file)) == Some(name)
            &&& with_extension_text(file, ext) == dir + "/"@ + (stem_of(name) + "."@ + ext)
            &&& ends_with_component(dir) ==> parent_text(file) == Some(dir)
            &&& ends_with_component(dir) ==> with_name_text(file, other) == dir + "/"@ + other
        }),
{
    reveal_strlit("/");
    let sep = seq!['/'];
    let file = dir + "/"@ + name;
    assert(file =~= dir.push('/') + name);
    let front = split(dir, '/');
    let n = front.len() as int;
    lemma_name_alone(name);
    lemma_split_around(dir, name, '/');
    lemma_split_pieces(dir, '/');
    lemma_path_behind(dir, name);
    let pieces = split(file, '/');
    assert(pieces =~= front.push(name));
    assert(components_behind(seq![name], 0) =~= Seq::empty());
    assert(components_behind(seq![name], 1) =~= seq![ComponentView::Normal(name)]);
    assert(path_of(file) =~= path_of(dir).push(ComponentView::Normal(name)));
    assert(is_component(pieces, n));
    assert(last_component(pieces, n + 1) == n);
    law_join_split(dir, '/');
    let renamed = stem_of(name) + "."@ + ext;
    assert(pieces.take(n) =~= front);
    let changed = front.push(renamed);
    assert(changed.drop_last() =~= front);
    assert(join(changed, sep) == dir + sep + renamed);
    assert(dir + sep + renamed =~= dir + "/"@ + renamed);
    if ends_with_component(dir) {
        lemma_last_piece(dir);
        assert(pieces[n - 1] == front[n - 1]);
        assert(is_component(pieces, n - 1));
        assert(last_component(pieces, n) == n - 1);
        assert(parent_text(file) == Some(dir));
        law_joining_texts(dir, other);
    }
}

proof fn lemma_name_alone(name: Seq<char>)
    requires
        is_name(name),
    ensures
        split(name, '/') == seq![name],
        piece_component(name) == ComponentView::Normal(name),
{
    let pieces = seq![name];
    assert forall|i: int| 0 <= i < pieces.len() implies !(#[trigger] pieces[i]).contains('/') by {}
    law_split_join(pieces, '/');
}

/// A file without a directory: its directory is the empty text, and another name
/// or extension is all that there is. A file in the root has the root for its
/// directory.
pub proof fn law_files_without_directories(name: Seq<char>, other: Seq<char>, ext: Seq<char>)
    requires
        is_name(name),
        other.len() > 0 ==> other[0] != '/',
    ensures
        path_of(name) == seq![ComponentView::Normal(name)],
        parent_text(name) == Some(""@),
        with_name_text(name, other) == other,
        with_extension_text(name, ext) == stem_of(name) + "."@ + ext,
        ({
            let file = "/"@ + name;
            &&& path_of(file) == seq![ComponentView::Root, ComponentView::Normal(name)]
            &&& parent_text(file) == Some("/"@)
            &&& with_name_text(file, other) == "/"@ + other
            &&& with_extension_text(file, ext) == "/"@ + (stem_of(name) + "."@ + ext)
        }),
{
    reveal_strlit("/");
    reveal_strlit("");
    let none = Seq::<char>::empty();
    let sep = seq!['/'];
    assert("/"@ =~= sep);
    assert(""@ =~= none);
    lemma_name_alone(name);
    let pieces = split(name, '/');
    assert(components_of(pieces, 0) =~= Seq::empty());
    assert(name[0] != '/') by {
        assert(name.contains(name[0]));
    }
    assert(path_of(name) =~= seq![ComponentView::Normal(name)]);
    assert(is_component(pieces, 0));
    assert(last_component(pieces, 1) == 0);
    assert(last_component(pieces, 0) == -1);
    assert(pieces.take(0) =~= Seq::empty());
    let renamed = stem_of(name) + "."@ + ext;
    assert(pieces.take(0).push(renamed) =~= seq![renamed]);
    assert(none + other =~= other);
    let file = "/"@ + name;
    assert(file =~= none.push('/') + name);
    lemma_split_around(none, name, '/');
    assert(split(none, '/') =~= seq![none]);
    let rooted = split(file, '/');
    assert(rooted =~= seq![none, name]);
    assert(file[0] == '/');
    assert(components_of(rooted, 0) =~= Seq::empty());
    assert(components_of(rooted, 1) =~= Seq::empty());
    assert(components_of(rooted, 2) =~= seq![ComponentView::Normal(name)]);
    assert(path_of(file) =~= seq![ComponentView::Root, ComponentView::Normal(name)]);
    assert(is_component(rooted, 1));
    assert(last_component(rooted, 2) == 1);
    assert(last_component(rooted, 0) == -1);
    assert(last_component(rooted, 1) == -1);
    assert(rooted.take(1) =~= seq![none]);
    let changed = rooted.take(1).push(renamed);
    assert(changed.drop_last() =~= seq![none]);
    assert(join(seq![none], sep) == none);
    assert(join(changed, sep) =~= "/"@ + renamed);
}

/// Nothing and the root have no directory above them.
pub proof fn law_no_parent_of_nothing()
    ensures
        parent_text(Seq::empty()) is None,
        parent_text("/"@) is None,
        path_of(Seq::empty()) == Seq::<ComponentView>::empty(),
        path_of("/"@) == seq![ComponentView::Root],
{
    reveal_strlit("/");
    let none = Seq::<char>::empty();
    let pieces = split(none, '/');
    assert(pieces =~= seq![none]);
    assert(last_component(pieces, 0) == -1);
    assert(last_component(pieces, 1) == -1);
    assert(components_of(pieces, 0) =~= Seq::empty());
    assert(components_of(pieces, 1) =~= Seq::empty());
    assert(path_of(none) =~= Seq::empty());
    let root = "/"@;
    assert(root =~= none.push('/') + none);
    lemma_split_around(none, none, '/');
    let rooted = split(root, '/');
    assert(rooted =~= seq![none, none]);
    assert(last_component(rooted, 0) == -1);
    assert(last_component(rooted, 1) == -1);
    assert(last_component(rooted, 2) == -1);
    assert(components_of(rooted, 0) =~= Seq::empty());
    assert(components_of(rooted, 1) =~= Seq::empty());
    assert(components_of(rooted, 2) =~= Seq::empty());
    assert(path_of(root) =~= seq![ComponentView::Root]);
}

/// Redundant separators between a directory and a file, and behind the file, go
/// with the file: its directory is the text up to them, and another name or
/// extension leaves none behind.
pub proof fn law_separators_around_files(
    dir: Seq<char>,
    name: Seq<char>,
    other: Seq<char>,
    ext: Seq<char>,
)
    requires
        is_name(name),
        ends_with_component(dir),
        other.len() > 0 ==> other[0] != '/',
    ensures
        parent_text(dir + "//"@ + name) == Some(dir),
        parent_text(dir + "/./"@ + name) == Some(dir),
        parent_text(dir + "/"@ + name + "/"@) == Some(dir),
        with_name_text(dir + "//"@ + name, other) == dir + "/"@ + other,
        with_name_text(dir + "/"@ + name + "/"@, other) == dir + "/"@ + other,
        with_extension_text(dir + "/"@ + name + "/"@, ext) == dir + "/"@ + (stem_of(name) + "."@
            + ext),
{
    reveal_strlit("/");
    reveal_strlit("//");
    reveal_strlit("/./");
    reveal_strlit(".");
    let none = Seq::<char>::empty();
    let dot = seq!['.'];
    let sep = seq!['/'];
    let front = split(dir, '/');
    let n = front.len() as int;
    lemma_last_piece(dir);
    lemma_name_alone(name);
    law_join_split(dir, '/');
    assert(split(none, '/') =~= seq![none]);
    assert("."@ =~= dot);
    assert(dot.drop_last() =~= none);
    assert(split(dot, '/') =~= seq![dot]) by {
        assert(seq![none].drop_last().push(none.push('.')) =~= seq![dot]);
    }
    law_files_in_directories(dir, name, other, ext);
    law_redundant_separators_do_not_count(dir, name);
    law_redundant_separators_do_not_count(dir + "/"@ + name, none);
    law_joining_texts(dir, other);
    let twice = dir + "//"@ + name;
    assert(twice =~= dir.push('/') + (none.push('/') + name));
    lemma_split_around(dir, none.push('/') + name, '/');
    lemma_split_around(none, name, '/');
    lemma_parent_behind(dir, none, name, twice);
    let dotted = dir + "/./"@ + name;
    assert(dotted =~= dir.push('/') + (dot.push('/') + name));
    lemma_split_around(dir, dot.push('/') + name, '/');
    lemma_split_around(dot, name, '/');
    lemma_parent_behind(dir, dot, name, dotted);
    let trailing = dir + "/"@ + name + "/"@;
    assert(trailing =~= dir.push('/') + (name.push('/') + none));
    lemma_split_around(dir, name.push('/') + none, '/');
    lemma_split_around(name, none, '/');
    let pieces = split(trailing, '/');
    assert(pieces =~= front + seq![name, none]);
    assert(pieces[n] == name && pieces[n + 1] == none && pieces[n - 1] == front[n - 1]);
    assert(is_component(pieces, n) && is_component(pieces, n - 1));
    assert(!is_component(pieces, n + 1));
    assert(last_component(pieces, n + 1) == n);
    assert(last_component(pieces, n + 2) == n);
    assert(last_component(pieces, n) == n - 1);
    assert(pieces.take(n) =~= front);
    let renamed = stem_of(name) + "."@ + ext;
    let changed = front.push(renamed);
    assert(changed.drop_last() =~= front);
    assert(join(changed, sep) =~= dir + "/"@ + renamed);
}

proof fn lemma_parent_behind(
    dir: Seq<char>,
    between: Seq<char>,
    name: Seq<char>,
    file: Seq<char>,
)
    requires
        ends_with_component(dir),
        is_name(name),
        between.len() == 0 || between == "."@,
        split(file, '/') == split(dir, '/') + (seq![between] + seq![name]),
    ensures
        parent_text(file) == Some(dir),
{
    let front = split(dir, '/');
    let n = front.len() as int;
    let pieces = split(file, '/');
    lemma_last_piece(dir);
    law_join_split(dir, '/');
    assert(pieces[n + 1] == name && pieces[n] == between && pieces[n - 1] == front[n - 1]);
    assert(is_component(pieces, n + 1));
    assert(!is_component(pieces, n));
    assert(is_component(pieces, n - 1));
    assert(last_component(pieces, n + 2) == n + 1);
    assert(last_component(pieces, n) == n - 1);
    assert(last_component(pieces, n + 1) == n - 1);
    assert(pieces.take(n) =~= front);
}

/// A text without a file name keeps all of it: a name goes behind it, and an
/// extension nowhere.
pub proof fn law_texts_without_file_names(text: Seq<char>, name: Seq<char>, ext: Seq<char>)
    requires
        file_name_of(path_of(text)) is None,
    ensures
        with_name_text(text, name) == joined_text(text, name),
        with_extension_text(text, ext) == text,
{
}

} // verus!
