//! What paths are made of, stated on the names between their slashes, and how texts and paths are
//! ordered.
use vstd::prelude::*;
use vstd::utf8;

use crate::order;
use crate::order::Order;
use crate::paths;
use crate::paths::Part;

verus! {

/// A piece of a path that is a name: it is not empty, no slash is in it, and it is neither one dot
/// nor two.
pub open spec fn is_name(piece: Seq<char>) -> bool {
    &&& piece.len() > 0
    &&& !piece.contains('/')
    &&& piece != seq!['.']
    &&& piece != seq!['.', '.']
}

/// A path with one more piece behind a slash.
pub open spec fn child(parent: Seq<char>, piece: Seq<char>) -> Seq<char> {
    parent + seq!['/'] + piece
}

/// The literals for one dot and for two.
proof fn lemma_dots()
    ensures
        "."@ == seq!['.'],
        ".."@ == seq!['.', '.'],
{
    reveal_strlit(".");
    reveal_strlit("..");
    assert("."@ =~= seq!['.']);
    assert(".."@ =~= seq!['.', '.']);
}

/// A text without slashes is one piece.
proof fn lemma_one_piece(piece: Seq<char>)
    requires
        !piece.contains('/'),
    ensures
        paths::split_on(piece, '/') == seq![piece],
    decreases piece.len(),
{
    if piece.len() > 0 {
        let shorter = piece.drop_last();
        assert forall|i: int| 0 <= i < shorter.len() implies shorter[i] != '/' by {
            assert(piece[i] == shorter[i]);
        }
        assert(piece[piece.len() - 1] == piece.last());
        lemma_one_piece(shorter);
        assert(shorter.push(piece.last()) =~= piece);
        assert(seq![shorter].drop_last() =~= Seq::<Seq<char>>::empty());
        assert(paths::split_on(piece, '/') =~= seq![piece]);
    } else {
        assert(piece =~= Seq::empty());
    }
}

/// The pieces of a path with one more behind a slash.
proof fn lemma_pieces_of_child(parent: Seq<char>, piece: Seq<char>)
    requires
        !piece.contains('/'),
    ensures
        paths::split_on(child(parent, piece), '/') == paths::split_on(parent, '/').push(piece),
    decreases piece.len(),
{
    let path = child(parent, piece);
    let before = paths::split_on(parent, '/');
    if piece.len() == 0 {
        assert(path.drop_last() =~= parent);
        assert(path.last() == '/');
        assert(piece =~= Seq::empty());
    } else {
        let shorter = piece.drop_last();
        assert forall|i: int| 0 <= i < shorter.len() implies shorter[i] != '/' by {
            assert(piece[i] == shorter[i]);
        }
        assert(piece[piece.len() - 1] == piece.last());
        lemma_pieces_of_child(parent, shorter);
        assert(path.drop_last() =~= child(parent, shorter));
        assert(path.last() == piece.last());
        assert(before.push(shorter).drop_last() =~= before);
        assert(shorter.push(piece.last()) =~= piece);
    }
}

/// A text always has a piece.
proof fn lemma_some_piece(path: Seq<char>)
    ensures
        paths::split_on(path, '/').len() > 0,
    decreases path.len(),
{
    if path.len() > 0 {
        lemma_some_piece(path.drop_last());
    }
}

/// A path without slashes has one component: the name that it is, or what a lone dot or two dots
/// stand for. The empty path has none.
pub proof fn law_components_of_one_piece(piece: Seq<char>)
    requires
        !piece.contains('/'),
    ensures
        piece.len() == 0 ==> paths::components_of(piece) == Seq::<Part>::empty(),
        piece == seq!['.'] ==> paths::components_of(piece) == seq![Part::CurDir],
        piece == seq!['.', '.'] ==> paths::components_of(piece) == seq![Part::ParentDir],
        is_name(piece) ==> paths::components_of(piece) == seq![Part::Normal(piece)],
{
    lemma_dots();
    lemma_one_piece(piece);
    let pieces = seq![piece];
    assert(pieces.drop_last() =~= Seq::<Seq<char>>::empty());
    assert(paths::parts_of(pieces.drop_last()) =~= Seq::<Part>::empty());
    assert(pieces.last() == piece);
    if piece.len() > 0 {
        assert(piece[0] != '/');
    } else {
        assert(piece =~= Seq::empty());
    }
}

/// One more piece behind a slash adds a component to a path: the name that it is, or the directory
/// above for two dots. An empty piece and a lone dot add nothing. A slash that nothing stands before
/// is the root.
pub proof fn law_components_of_child(parent: Seq<char>, piece: Seq<char>)
    requires
        !piece.contains('/'),
    ensures
        ({
            let above = if parent.len() == 0 {
                seq![Part::RootDir]
            } else {
                paths::components_of(parent)
            };
            let found = paths::components_of(child(parent, piece));
            &&& piece.len() == 0 || piece == seq!['.'] ==> found == above
            &&& piece == seq!['.', '.'] ==> found == above.push(Part::ParentDir)
            &&& is_name(piece) ==> found == above.push(Part::Normal(piece))
        }),
{
    lemma_dots();
    lemma_some_piece(parent);
    lemma_pieces_of_child(parent, piece);
    let path = child(parent, piece);
    let before = paths::split_on(parent, '/');
    let pieces = before.push(piece);
    assert(pieces.drop_last() =~= before);
    let names = paths::parts_of(before);
    if parent.len() == 0 {
        assert(parent =~= Seq::empty());
        assert(path[0] == '/');
        assert(before =~= seq![Seq::<char>::empty()]);
        assert(before.drop_last() =~= Seq::<Seq<char>>::empty());
        assert(paths::parts_of(before.drop_last()) =~= Seq::<Part>::empty());
        assert(before.last() == Seq::<char>::empty());
        assert(names =~= Seq::<Part>::empty());
        assert(seq![Part::RootDir] + names =~= seq![Part::RootDir]);
    } else {
        assert(path[0] == parent[0]);
    }
    if piece.len() == 0 {
        assert(piece =~= Seq::empty());
    }
    let root: Seq<Part> = if paths::is_absolute(path) {
        seq![Part::RootDir]
    } else {
        Seq::empty()
    };
    assert(paths::components_of(path) =~= root + paths::parts_of(pieces));
    assert(root + names.push(Part::ParentDir) =~= (root + names).push(Part::ParentDir));
    assert(root + names.push(Part::Normal(piece)) =~= (root + names).push(Part::Normal(piece)));
}

/// The name that a path ends in is all that stands behind its last slash, dots and all, or the whole
/// path where it has no slash.
pub proof fn law_file_name(parent: Seq<char>, name: Seq<char>)
    requires
        is_name(name),
    ensures
        paths::file_name_of(name) == Some(name),
        paths::file_name_of(child(parent, name)) == Some(name),
{
    law_components_of_one_piece(name);
    law_components_of_child(parent, name);
}

/// Slashes and lone dots at the end of a path change nothing of the name that it ends in; two dots
/// leave it without one.
pub proof fn law_file_name_before_the_end(path: Seq<char>)
    requires
        path.len() > 0,
    ensures
        paths::file_name_of(child(path, Seq::empty())) == paths::file_name_of(path),
        paths::file_name_of(child(path, seq!['.'])) == paths::file_name_of(path),
        paths::file_name_of(child(path, seq!['.', '.'])) is None,
{
    law_components_of_child(path, Seq::empty());
    law_components_of_child(path, seq!['.']);
    law_components_of_child(path, seq!['.', '.']);
}

/// The path where nothing or only the root is ends in no name.
pub proof fn law_root_has_no_name()
    ensures
        paths::file_name_of(Seq::empty()) is None,
        paths::file_name_of(seq!['/']) is None,
{
    law_components_of_one_piece(Seq::empty());
    law_components_of_child(Seq::empty(), Seq::empty());
    assert(child(Seq::empty(), Seq::empty()) =~= seq!['/']);
}

/// What stands behind the last dot of a name is its extension, and what stands before that dot is its
/// stem, unless nothing does.
pub proof fn law_stem_and_extension(parent: Seq<char>, stem: Seq<char>, extension: Seq<char>)
    requires
        stem.len() > 0,
        !extension.contains('.'),
        is_name(stem + seq!['.'] + extension),
    ensures
        paths::file_stem_of(child(parent, stem + seq!['.'] + extension)) == Some(stem),
        paths::extension_of(child(parent, stem + seq!['.'] + extension)) == Some(extension),
        paths::file_stem_of(stem + seq!['.'] + extension) == Some(stem),
        paths::extension_of(stem + seq!['.'] + extension) == Some(extension),
{
    let name = stem + seq!['.'] + extension;
    law_file_name(parent, name);
    lemma_last_dot(name, stem.len() as int);
    assert(name.take(stem.len() as int) =~= stem);
    assert(name.skip(stem.len() as int + 1) =~= extension);
}

/// A name without a dot behind its first character is its own stem and has no extension.
pub proof fn law_stem_without_extension(parent: Seq<char>, name: Seq<char>)
    requires
        is_name(name),
        !name.skip(1).contains('.'),
    ensures
        paths::file_stem_of(child(parent, name)) == Some(name),
        paths::extension_of(child(parent, name)) is None,
        paths::file_stem_of(name) == Some(name),
        paths::extension_of(name) is None,
{
    law_file_name(parent, name);
    lemma_no_extension(name);
    assert(name.take(name.len() as int) =~= name);
}

/// Stem and extension of a path depend on the name that it ends in alone; without a name it has
/// neither.
pub proof fn law_stem_depends_on_the_name(a: Seq<char>, b: Seq<char>)
    ensures
        paths::file_name_of(a) == paths::file_name_of(b) ==> paths::file_stem_of(a)
            == paths::file_stem_of(b) && paths::extension_of(a) == paths::extension_of(b),
        paths::file_name_of(a) is None ==> paths::file_stem_of(a) is None && paths::extension_of(
            a,
        ) is None,
{
}

/// A name without a dot behind its first character is all stem.
proof fn lemma_no_extension(name: Seq<char>)
    requires
        !name.skip(1).contains('.'),
    ensures
        paths::stem_length(name) == name.len(),
{
    name.index_of_last_ensures('.');
    match name.index_of_last('.') {
        Some(dot) => {
            if name.contains('.') && dot > 0 {
                assert(name.skip(1)[dot - 1] == name[dot]);
            }
        },
        None => {},
    }
}

/// The last dot of a name is where a dot is and none after it.
proof fn lemma_last_dot(name: Seq<char>, dot: int)
    requires
        0 <= dot < name.len(),
        name[dot] == '.',
        forall|i: int| dot < i < name.len() ==> name[i] != '.',
    ensures
        name.index_of_last('.') == Some(dot),
{
    name.index_of_last_ensures('.');
    assert(name.contains('.'));
    let found = name.index_of_last('.')->0;
    if found != dot {
        assert(name[found] == '.');
    }
}

/// A longer path has no fewer components.
proof fn lemma_components_of_beginning(path: Seq<char>, length: int)
    requires
        0 <= length <= path.len(),
    ensures
        paths::components_of(path.take(length)).len() <= paths::components_of(path).len(),
    decreases path.len(),
{
    if length < path.len() {
        assert(path.drop_last().take(length) =~= path.take(length));
        lemma_components_of_beginning(path.drop_last(), length);
        paths::lemma_components_grow(path);
    } else {
        assert(path.take(length) =~= path);
    }
}

/// No shorter beginning of a path that ends in a name has the same components.
proof fn lemma_path_ends_in_its_name(parent: Seq<char>, name: Seq<char>, length: int)
    requires
        is_name(name),
        0 <= length < child(parent, name).len(),
    ensures
        paths::components_of(child(parent, name).take(length)) != paths::components_of(
            child(parent, name),
        ),
{
    let path = child(parent, name);
    let base = child(parent, Seq::empty());
    let shorter = path.take(length);
    law_components_of_child(parent, name);
    law_components_of_child(parent, Seq::empty());
    if length <= base.len() {
        assert(shorter =~= base.take(length));
        lemma_components_of_beginning(base, length);
    } else {
        let piece = name.take(length - base.len());
        assert(shorter =~= child(parent, piece));
        assert(!piece.contains('/')) by {
            assert forall|i: int| 0 <= i < piece.len() implies piece[i] != '/' by {
                assert(piece[i] == name[i]);
            }
        }
        law_components_of_child(parent, piece);
        assert(piece.len() < name.len());
        let found = paths::components_of(shorter);
        let all = paths::components_of(path);
        assert(all.last() == Part::Normal(name));
        if found == all {
            if is_name(piece) {
                assert(found.last() == Part::Normal(piece));
            }
        }
    }
}

/// The directory that a path is in is a beginning of it with all its components but the last, and
/// the shortest such beginning. There is none exactly for a path without components and for the
/// root.
pub proof fn law_parent_is_the_shortest(path: Seq<char>)
    ensures
        paths::parent_of(path) is None <==> paths::components_of(path).len() == 0
            || paths::components_of(path).last() is RootDir,
        paths::parent_of(path) matches Some(parent) ==> {
            &&& parent.is_prefix_of(path)
            &&& paths::components_of(parent) == paths::components_of(path).drop_last()
            &&& forall|length: int|
                #![trigger path.take(length)]
                0 <= length < parent.len() ==> paths::components_of(path.take(length))
                    != paths::components_of(parent)
        },
{
    paths::law_parent_drops_the_last_component(path);
    match paths::parent_of(path) {
        Some(parent) => {
            let wanted = paths::components_of(path).drop_last();
            lemma_nothing_shorter(path, wanted, 0);
            assert(parent =~= path.subrange(0, parent.len() as int));
        },
        None => {},
    }
}

/// No beginning before the shortest one has the components.
proof fn lemma_nothing_shorter(path: Seq<char>, wanted: Seq<Part>, from: int)
    ensures
        0 <= from <= path.len() ==> from <= paths::shortest_beginning(path, wanted, from)
            <= path.len(),
        forall|length: int|
            #![trigger path.take(length)]
            from <= length < paths::shortest_beginning(path, wanted, from) ==> paths::components_of(
                path.take(length),
            ) != wanted,
    decreases path.len() - from,
{
    if !(from >= path.len() || paths::components_of(path.take(from)) == wanted) {
        lemma_nothing_shorter(path, wanted, from + 1);
    }
}

/// The directory of a path that ends in two names is all that stands before the last slash.
pub proof fn law_parent_of_child(parent: Seq<char>, directory: Seq<char>, name: Seq<char>)
    requires
        is_name(directory),
        is_name(name),
    ensures
        paths::parent_of(child(child(parent, directory), name)) == Some(child(parent, directory)),
{
    let above = child(parent, directory);
    let path = child(above, name);
    law_components_of_child(above, name);
    law_parent_is_the_shortest(path);
    let found = paths::parent_of(path)->0;
    assert(paths::components_of(path).drop_last() =~= paths::components_of(above));
    assert(above =~= path.take(above.len() as int));
    if found.len() > above.len() {
        assert(paths::components_of(path.take(above.len() as int)) != paths::components_of(found));
    }
    if found.len() < above.len() {
        assert(found =~= above.take(found.len() as int));
        lemma_path_ends_in_its_name(parent, directory, found.len() as int);
    }
    assert(found =~= above);
}

/// Giving a path another extension replaces what stands behind the last dot of its name, and nothing
/// else.
pub proof fn law_extension_is_replaced(
    parent: Seq<char>,
    stem: Seq<char>,
    old_extension: Seq<char>,
    extension: Seq<char>,
)
    requires
        stem.len() > 0,
        stem != seq!['.'],
        !old_extension.contains('.'),
        is_name(stem + seq!['.'] + old_extension),
        extension.len() > 0,
    ensures
        paths::extended(child(parent, stem + seq!['.'] + old_extension), extension) == child(
            parent,
            stem + seq!['.'] + extension,
        ),
        paths::extended(stem + seq!['.'] + old_extension, extension) == stem + seq!['.']
            + extension,
{
    let name = stem + seq!['.'] + old_extension;
    if stem.len() == 1 && stem[0] == '.' {
        assert(stem =~= seq!['.']);
    }
    lemma_extended(parent, name, stem.len() as int, extension);
    assert(name.take(stem.len() as int) =~= stem);
}

/// Giving an extension to a path whose name has none puts it behind the name with a dot.
pub proof fn law_extension_is_put_on(parent: Seq<char>, name: Seq<char>, extension: Seq<char>)
    requires
        is_name(name),
        !name.skip(1).contains('.'),
        extension.len() > 0,
    ensures
        paths::extended(child(parent, name), extension) == child(
            parent,
            name + seq!['.'] + extension,
        ),
        paths::extended(name, extension) == name + seq!['.'] + extension,
{
    lemma_no_extension(name);
    lemma_extended(parent, name, name.len() as int, extension);
    assert(name.take(name.len() as int) =~= name);
}

/// Giving an empty extension to a path takes its extension off, with its dot.
pub proof fn law_extension_is_taken_off(parent: Seq<char>, stem: Seq<char>, extension: Seq<char>)
    requires
        stem.len() > 0,
        stem != seq!['.'],
        !extension.contains('.'),
        is_name(stem + seq!['.'] + extension),
    ensures
        paths::extended(child(parent, stem + seq!['.'] + extension), Seq::empty()) == child(
            parent,
            stem,
        ),
        paths::extended(stem + seq!['.'] + extension, Seq::empty()) == stem,
{
    let name = stem + seq!['.'] + extension;
    let path = child(parent, name);
    law_file_name(parent, name);
    lemma_last_dot(name, stem.len() as int);
    lemma_whole_path(parent, name);
    lemma_whole_name(name);
    assert(name.take(stem.len() as int) =~= stem);
    if stem.len() == 1 && stem[0] == '.' {
        assert(stem =~= seq!['.']);
    }
    assert(name[0] == stem[0]);
    assert(!paths::ends_in_dotted_name(path));
    assert(!paths::ends_in_dotted_name(name));
    assert(path.take(path.len() - name.len() + stem.len()) =~= child(parent, stem));
}

/// A name of two dots and more has its extension behind the second dot. A path that ends right in
/// such a name keeps the two dots and gets no other extension; where a slash follows the name, the
/// extension is replaced.
pub proof fn law_extension_of_dotted_name(
    parent: Seq<char>,
    old_extension: Seq<char>,
    extension: Seq<char>,
)
    requires
        old_extension.len() > 0,
        !old_extension.contains('.'),
        !old_extension.contains('/'),
        extension.len() > 0,
    ensures
        ({
            let path = child(parent, seq!['.', '.'] + old_extension);
            &&& paths::extended(path, extension) == child(parent, seq!['.', '.'])
            &&& paths::extended(child(path, Seq::empty()), extension) == child(
                parent,
                seq!['.', '.'] + extension,
            )
        }),
        paths::extended(seq!['.', '.'] + old_extension, extension) == seq!['.', '.'],
{
    let name = seq!['.', '.'] + old_extension;
    let path = child(parent, name);
    let longer = child(path, Seq::empty());
    let found = paths::components_of(path);
    assert(!name.contains('/')) by {
        assert forall|i: int| 0 <= i < name.len() implies name[i] != '/' by {
            if i >= 2 {
                assert(old_extension[i - 2] == name[i]);
            }
        }
    }
    assert(name.len() > 2);
    assert(is_name(name));
    assert forall|i: int| 1 < i < name.len() implies name[i] != '.' by {
        assert(old_extension[i - 2] == name[i]);
    }
    lemma_last_dot(name, 1);
    law_file_name(parent, name);
    law_file_name_before_the_end(path);
    law_components_of_child(path, Seq::empty());
    lemma_whole_path(parent, name);
    assert(longer =~= path + seq!['/']);
    lemma_beginning_of_longer_path(path, seq!['/'], found, 0);
    let stem_end = path.len() - name.len() + 1;
    assert(path.take(stem_end + 1) =~= child(parent, seq!['.', '.']));
    assert(paths::ends_in_dotted_name(path));
    lemma_whole_name(name);
    assert(paths::ends_in_dotted_name(name));
    assert(name.take(2) =~= seq!['.', '.']);
    assert(!paths::ends_in_dotted_name(longer));
    lemma_dots();
    assert(longer.take(stem_end) + "."@ + extension =~= child(parent, seq!['.', '.'] + extension));
}

/// A path that ends in no name stays as it is whatever extension it is given.
pub proof fn law_no_name_gets_no_extension(path: Seq<char>, extension: Seq<char>)
    requires
        paths::file_name_of(path) is None,
    ensures
        paths::extended(path, extension) == path,
{
}

/// The shortest beginning of a path does not depend on what follows the path.
proof fn lemma_beginning_of_longer_path(
    path: Seq<char>,
    more: Seq<char>,
    wanted: Seq<Part>,
    from: int,
)
    requires
        0 <= from <= path.len(),
        paths::components_of(path) == wanted,
    ensures
        paths::shortest_beginning(path + more, wanted, from) == paths::shortest_beginning(
            path,
            wanted,
            from,
        ),
    decreases path.len() - from,
{
    assert((path + more).take(from) =~= path.take(from));
    if from < path.len() {
        if paths::components_of(path.take(from)) != wanted {
            lemma_beginning_of_longer_path(path, more, wanted, from + 1);
        }
    } else {
        assert(path.take(from) =~= path);
    }
}

/// What follows the name that a path ends in, a slash or a slash and a lone dot, is lost when the path
/// is given an extension, unless its name starts with two dots.
pub proof fn law_extension_before_a_slash(path: Seq<char>, extension: Seq<char>)
    requires
        paths::file_name_of(path) matches Some(name) && !(name.len() > 1 && name[0] == '.'
            && name[1] == '.'),
    ensures
        paths::extended(child(path, Seq::empty()), extension) == paths::extended(path, extension),
        paths::extended(child(path, seq!['.']), extension) == paths::extended(path, extension),
{
    if path.len() == 0 {
        law_components_of_one_piece(path);
    }
    law_components_of_child(path, Seq::empty());
    law_components_of_child(path, seq!['.']);
    assert(child(path, Seq::empty()) =~= path + seq!['/']);
    assert(child(path, seq!['.']) =~= path + seq!['/', '.']);
    lemma_extension_before_more(path, seq!['/'], extension);
    lemma_extension_before_more(path, seq!['/', '.'], extension);
}

/// What adds no component to a path is lost when the path is given an extension.
proof fn lemma_extension_before_more(path: Seq<char>, more: Seq<char>, extension: Seq<char>)
    requires
        paths::file_name_of(path) matches Some(name) && !(name.len() > 1 && name[0] == '.'
            && name[1] == '.'),
        paths::components_of(path + more) == paths::components_of(path),
    ensures
        paths::extended(path + more, extension) == paths::extended(path, extension),
{
    let name = paths::file_name_of(path)->0;
    let longer = path + more;
    let found = paths::components_of(path);
    lemma_beginning_of_longer_path(path, more, found, 0);
    paths::lemma_name_at_the_end(path);
    name.index_of_last_ensures('.');
    let end = paths::shortest_beginning(path, found, 0);
    let stem_end = end - name.len() + paths::stem_length(name);
    assert(longer.take(stem_end) =~= path.take(stem_end));
    assert(!paths::ends_in_dotted_name(path));
    assert(!paths::ends_in_dotted_name(longer));
}

/// What a new extension makes of a path that ends in a name.
proof fn lemma_extended(parent: Seq<char>, name: Seq<char>, length: int, extension: Seq<char>)
    requires
        is_name(name),
        extension.len() > 0,
        0 < length <= name.len(),
        length < name.len() ==> name[length] == '.' && forall|i: int|
            length < i < name.len() ==> name[i] != '.',
        length == name.len() ==> paths::stem_length(name) == name.len(),
        length == 1 && name.len() > 1 ==> name[0] != '.',
    ensures
        paths::extended(child(parent, name), extension) == child(
            parent,
            name.take(length) + seq!['.'] + extension,
        ),
        paths::extended(name, extension) == name.take(length) + seq!['.'] + extension,
{
    let path = child(parent, name);
    law_file_name(parent, name);
    if length < name.len() {
        lemma_last_dot(name, length);
    }
    lemma_whole_path(parent, name);
    lemma_whole_name(name);
    assert(paths::stem_length(name) == length);
    assert(!paths::ends_in_dotted_name(path));
    assert(!paths::ends_in_dotted_name(name));
    lemma_dots();
    assert(path.take(path.len() - name.len() + length) =~= child(parent, name.take(length)));
    assert(child(parent, name.take(length)) + seq!['.'] + extension =~= child(
        parent,
        name.take(length) + seq!['.'] + extension,
    ));
}

/// A name by itself has no shorter beginning that is the same name.
proof fn lemma_whole_name(name: Seq<char>)
    requires
        is_name(name),
    ensures
        paths::shortest_beginning(name, paths::components_of(name), 0) == name.len(),
{
    let wanted = paths::components_of(name);
    let end = paths::shortest_beginning(name, wanted, 0);
    assert(name.take(name.len() as int) =~= name);
    paths::lemma_shortest_beginning(name, wanted, 0, name.len() as int);
    law_components_of_one_piece(name);
    if end < name.len() {
        let piece = name.take(end);
        assert(!piece.contains('/')) by {
            assert forall|i: int| 0 <= i < piece.len() implies piece[i] != '/' by {
                assert(piece[i] == name[i]);
            }
        }
        law_components_of_one_piece(piece);
        assert(paths::components_of(piece) == wanted);
        assert(wanted[0] == Part::Normal(name));
        assert(piece.len() < name.len());
        if piece.len() == 0 {
            assert(wanted.len() == 0);
        } else if piece == seq!['.'] {
            assert(wanted[0] is CurDir);
        } else if piece == seq!['.', '.'] {
            assert(wanted[0] is ParentDir);
        } else {
            assert(is_name(piece));
            assert(wanted[0] == Part::Normal(piece));
        }
    }
}

/// A path that ends in a name has no shorter beginning with all its components.
proof fn lemma_whole_path(parent: Seq<char>, name: Seq<char>)
    requires
        is_name(name),
    ensures
        paths::shortest_beginning(
            child(parent, name),
            paths::components_of(child(parent, name)),
            0,
        ) == child(parent, name).len(),
{
    let path = child(parent, name);
    let wanted = paths::components_of(path);
    let end = paths::shortest_beginning(path, wanted, 0);
    assert(path.take(path.len() as int) =~= path);
    paths::lemma_shortest_beginning(path, wanted, 0, path.len() as int);
    if end < path.len() {
        lemma_path_ends_in_its_name(parent, name, end);
    }
}

/// Two sequences agree up to a place.
pub open spec fn agree_up_to<T>(a: Seq<T>, b: Seq<T>, place: int) -> bool {
    &&& 0 <= place <= a.len()
    &&& place <= b.len()
    &&& forall|i: int| 0 <= i < place ==> #[trigger] a[i] == b[i]
}

/// The first place where two sequences differ decides their order.
proof fn lemma_first_difference<T>(
    a: Seq<T>,
    b: Seq<T>,
    rank: spec_fn(T, T) -> Order,
    place: int,
)
    requires
        forall|x: T| #[trigger] rank(x, x) == Order::Same,
        agree_up_to(a, b, place),
    ensures
        place < a.len() && place < b.len() && rank(a[place], b[place]) != Order::Same
            ==> order::lexicographic(a, b, rank) == rank(a[place], b[place]),
        place == a.len() && place < b.len() ==> order::lexicographic(a, b, rank) == Order::Less,
        place < a.len() && place == b.len() ==> order::lexicographic(a, b, rank) == Order::Greater,
        place == a.len() && place == b.len() ==> order::lexicographic(a, b, rank) == Order::Same,
    decreases place,
{
    if place > 0 {
        assert(a[0] == b[0]);
        assert(rank(a[0], a[0]) == Order::Same);
        let (x, y) = (a.drop_first(), b.drop_first());
        assert forall|i: int| 0 <= i < place - 1 implies #[trigger] x[i] == y[i] by {
            assert(a[i + 1] == b[i + 1]);
        }
        lemma_first_difference(x, y, rank, place - 1);
    }
}

/// Texts are ordered by the bytes of their encoding: the first byte in which two differ decides, and
/// a text comes after its own beginning.
pub proof fn law_text_order(a: Seq<char>, b: Seq<char>, place: int)
    requires
        agree_up_to(utf8::encode_utf8(a), utf8::encode_utf8(b), place),
    ensures
        ({
            let (x, y) = (utf8::encode_utf8(a), utf8::encode_utf8(b));
            &&& place < x.len() && place < y.len() && x[place] < y[place] ==> order::text_order(a, b)
                == Order::Less
            &&& place < x.len() && place < y.len() && x[place] > y[place] ==> order::text_order(a, b)
                == Order::Greater
            &&& place == x.len() && place < y.len() ==> order::text_order(a, b) == Order::Less
            &&& place < x.len() && place == y.len() ==> order::text_order(a, b) == Order::Greater
            &&& place == x.len() && place == y.len() ==> order::text_order(a, b) == Order::Same
        }),
{
    let rank = |x: u8, y: u8| order::byte_order(x, y);
    lemma_first_difference(utf8::encode_utf8(a), utf8::encode_utf8(b), rank, place);
}

/// Paths are ordered by their components: the first component in which two differ decides, and a
/// path comes after its own beginning. Of two names the lesser text comes first, and before every
/// name come the root, a lone dot and two dots, in this order.
pub proof fn law_path_order(a: Seq<char>, b: Seq<char>, place: int)
    requires
        agree_up_to(paths::components_of(a), paths::components_of(b), place),
    ensures
        ({
            let (x, y) = (paths::components_of(a), paths::components_of(b));
            &&& place < x.len() && place < y.len() && x[place] != y[place] ==> paths::path_order(
                a,
                b,
            ) == match (x[place], y[place]) {
                (Part::Normal(left), Part::Normal(right)) => order::text_order(left, right),
                (Part::RootDir, _) => Order::Less,
                (_, Part::RootDir) => Order::Greater,
                (Part::CurDir, _) => Order::Less,
                (_, Part::CurDir) => Order::Greater,
                (Part::ParentDir, _) => Order::Less,
                (_, Part::ParentDir) => Order::Greater,
            }
            &&& place == x.len() && place < y.len() ==> paths::path_order(a, b) == Order::Less
            &&& place < x.len() && place == y.len() ==> paths::path_order(a, b) == Order::Greater
            &&& place == x.len() && place == y.len() ==> paths::path_order(a, b) == Order::Same
        }),
{
    let (x, y) = (paths::components_of(a), paths::components_of(b));
    let rank = paths::by_part();
    paths::lemma_part_order();
    if place < x.len() && place < y.len() && x[place] != y[place] {
        assert(rank(x[place], y[place]) != Order::Same);
    }
    lemma_first_difference(x, y, rank, place);
}

} // verus!
