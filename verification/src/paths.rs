//! File paths as text: their components, their parts, and their order.
//!
//! A path is read the Unix way. Components are separated by `/`; empty ones, and `.` anywhere but
//! at the start of a relative path, count for nothing.
use vstd::prelude::*;

use crate::order;
use crate::order::Order;
use crate::text;

verus! {

/// One component of a path.
#[derive(Debug)]
pub enum Component {
    RootDir,
    CurDir,
    ParentDir,
    Normal(String),
}

/// What a `Component` is, as text.
pub enum Part {
    RootDir,
    CurDir,
    ParentDir,
    Normal(Seq<char>),
}

impl View for Component {
    type V = Part;

    open spec fn view(&self) -> Part {
        match self {
            Component::RootDir => Part::RootDir,
            Component::CurDir => Part::CurDir,
            Component::ParentDir => Part::ParentDir,
            Component::Normal(name) => Part::Normal(name@),
        }
    }
}

/// What each of a list of components is.
pub open spec fn parts(components: Seq<Component>) -> Seq<Part> {
    components.map_values(|component: Component| component@)
}

/// The pieces of a text between separators; there is one more of them than there are separators.
pub open spec fn split_on(s: Seq<char>, separator: char) -> Seq<Seq<char>>
    decreases s.len(),
{
    if s.len() == 0 {
        seq![Seq::empty()]
    } else {
        let before = split_on(s.drop_last(), separator);
        if s.last() == separator {
            before.push(Seq::empty())
        } else {
            before.drop_last().push(before.last().push(s.last()))
        }
    }
}

/// The component that a piece of a path is, if it is one.
pub open spec fn part_of(piece: Seq<char>, is_first: bool) -> Option<Part> {
    if piece == Seq::<char>::empty() {
        None
    } else if piece == "."@ {
        if is_first {
            Some(Part::CurDir)
        } else {
            None
        }
    } else if piece == ".."@ {
        Some(Part::ParentDir)
    } else {
        Some(Part::Normal(piece))
    }
}

/// The components among the pieces of a path.
pub open spec fn parts_of(pieces: Seq<Seq<char>>) -> Seq<Part>
    decreases pieces.len(),
{
    if pieces.len() == 0 {
        Seq::empty()
    } else {
        let before = parts_of(pieces.drop_last());
        match part_of(pieces.last(), pieces.len() == 1) {
            Some(part) => before.push(part),
            None => before,
        }
    }
}

/// A path that starts at the root.
pub open spec fn is_absolute(path: Seq<char>) -> bool {
    path.len() > 0 && path[0] == '/'
}

/// The components of a path.
pub open spec fn components_of(path: Seq<char>) -> Seq<Part> {
    let names = parts_of(split_on(path, '/'));
    if is_absolute(path) {
        seq![Part::RootDir] + names
    } else {
        names
    }
}

/// The name that a path ends in.
pub open spec fn file_name_of(path: Seq<char>) -> Option<Seq<char>> {
    let found = components_of(path);
    if found.len() == 0 {
        None
    } else {
        match found.last() {
            Part::Normal(name) => Some(name),
            _ => None,
        }
    }
}

/// Where the extension of a file name starts, with its dot; at the end where it has none. A dot in
/// front starts no extension.
pub open spec fn stem_length(name: Seq<char>) -> int {
    match name.index_of_last('.') {
        Some(dot) => if dot > 0 {
            dot
        } else {
            name.len() as int
        },
        None => name.len() as int,
    }
}

/// The name that a path ends in, without its extension.
pub open spec fn file_stem_of(path: Seq<char>) -> Option<Seq<char>> {
    match file_name_of(path) {
        Some(name) => Some(name.take(stem_length(name))),
        None => None,
    }
}

/// The extension of the name that a path ends in.
pub open spec fn extension_of(path: Seq<char>) -> Option<Seq<char>> {
    match file_name_of(path) {
        Some(name) => if stem_length(name) < name.len() {
            Some(name.skip(stem_length(name) + 1))
        } else {
            None
        },
        None => None,
    }
}

/// A path below another one. An absolute path stands for itself.
pub open spec fn joined(base: Seq<char>, path: Seq<char>) -> Seq<char> {
    if is_absolute(path) {
        path
    } else if base.len() == 0 || base.last() == '/' {
        base + path
    } else {
        base + "/"@ + path
    }
}

/// The length of the shortest beginning of a path, from a length on, that has the given
/// components; the whole length where none has.
pub open spec fn shortest_beginning(path: Seq<char>, wanted: Seq<Part>, from: int) -> int
    decreases path.len() - from,
{
    if from >= path.len() || components_of(path.take(from)) == wanted {
        from
    } else {
        shortest_beginning(path, wanted, from + 1)
    }
}

/// The path of the directory that a path is in: the shortest beginning of it that has all its
/// components but the last. The root and the empty path are in none.
pub open spec fn parent_of(path: Seq<char>) -> Option<Seq<char>> {
    let found = components_of(path);
    if found.len() == 0 || found.last() == Part::RootDir {
        None
    } else {
        Some(path.take(shortest_beginning(path, found.drop_last(), 0)))
    }
}

/// A name of two dots and more, such as `..b`, that a path ends right in. Its extension is `b`, and
/// without it `..` is left.
pub open spec fn ends_in_dotted_name(path: Seq<char>) -> bool {
    match file_name_of(path) {
        Some(name) => name.len() > 1 && stem_length(name) == 1 && name[0] == '.'
            && shortest_beginning(path, components_of(path), 0) == path.len(),
        None => false,
    }
}

/// A path with another extension: the shortest beginning that has all its components, its old
/// extension taken off, and the new one put on unless it is empty. A path that ends in no name stays
/// as it is. One that ends right in a name such as `..b` loses its extension and gets no other: what
/// is left ends in `..`, which is no name.
pub open spec fn extended(path: Seq<char>, extension: Seq<char>) -> Seq<char> {
    match file_name_of(path) {
        Some(name) => {
            let end = shortest_beginning(path, components_of(path), 0);
            let stem_end = end - name.len() + stem_length(name);
            if ends_in_dotted_name(path) {
                path.take(stem_end + 1)
            } else if extension.len() == 0 {
                path.take(stem_end)
            } else {
                path.take(stem_end) + "."@ + extension
            }
        },
        None => path,
    }
}

/// The order of components: the root, `.`, `..`, and then names by their text.
pub open spec fn part_order(a: Part, b: Part) -> Order {
    match (a, b) {
        (Part::Normal(x), Part::Normal(y)) => order::text_order(x, y),
        _ => order::byte_order(part_class(a), part_class(b)),
    }
}

/// Which kind of component comes first.
pub open spec fn part_class(part: Part) -> u8 {
    match part {
        Part::RootDir => 0,
        Part::CurDir => 1,
        Part::ParentDir => 2,
        Part::Normal(_) => 3,
    }
}

/// The order of components, as a function.
pub open spec fn by_part() -> spec_fn(Part, Part) -> Order {
    |a: Part, b: Part| part_order(a, b)
}

/// The order of paths: component by component.
pub open spec fn path_order(a: Seq<char>, b: Seq<char>) -> Order {
    order::lexicographic(components_of(a), components_of(b), by_part())
}

/// The order of paths, as a function.
pub open spec fn by_path() -> spec_fn(Seq<char>, Seq<char>) -> Order {
    |a: Seq<char>, b: Seq<char>| path_order(a, b)
}

/// The order of components is an order. It holds no two different components for the same.
pub proof fn lemma_part_order()
    ensures
        order::is_order(by_part()),
        order::tells_apart(by_part()),
{
    order::lemma_text_order();
    let texts = order::by_text();
    let rank = by_part();
    assert forall|a: Part, b: Part| #[trigger] rank(a, b) == (match (a, b) {
        (Part::Normal(x), Part::Normal(y)) => texts(x, y),
        _ => order::byte_order(part_class(a), part_class(b)),
    }) by {}
    assert(order::is_order(rank)) by {
        assert forall|x: Part, y: Part, z: Part|
            #![trigger rank(x, y), rank(y, z)]
            rank(x, y) != Order::Greater && rank(y, z) != Order::Greater implies rank(x, z)
            != Order::Greater && (rank(x, z) == Order::Same <==> rank(x, y) == Order::Same && rank(
            y,
            z,
        ) == Order::Same) by {
            match (x, y, z) {
                (Part::Normal(a), Part::Normal(b), Part::Normal(c)) => {
                    assert(texts(a, b) != Order::Greater && texts(b, c) != Order::Greater);
                },
                _ => {},
            }
        }
    }
    assert(order::tells_apart(rank)) by {
        assert forall|x: Part, y: Part| #[trigger] rank(x, y) == Order::Same implies x == y by {
            match (x, y) {
                (Part::Normal(a), Part::Normal(b)) => {
                    assert(texts(a, b) == Order::Same);
                },
                _ => {},
            }
        }
    }
}

/// The order of paths is an order. It holds two paths for the same exactly if they have the same
/// components.
pub proof fn lemma_path_order()
    ensures
        order::is_order(by_path()),
        forall|a: Seq<char>, b: Seq<char>| #[trigger]
            path_order(a, b) == Order::Same <==> components_of(a) == components_of(b),
{
    let rank = by_part();
    lemma_part_order();
    order::lemma_lexicographic_is_order(rank);
    let lex = |a: Seq<Part>, b: Seq<Part>| order::lexicographic(a, b, rank);
    let path = by_path();
    assert forall|a: Seq<char>, b: Seq<char>| #[trigger] path(a, b) == lex(
        components_of(a),
        components_of(b),
    ) by {}
    assert forall|a: Seq<char>, b: Seq<char>| #[trigger]
        path_order(a, b) == Order::Same <==> components_of(a) == components_of(b) by {
        assert(path_order(a, b) == lex(components_of(a), components_of(b)));
    }
}

/// The component that a piece of a path is.
fn component(piece: String, is_first: bool) -> (result: Option<Component>)
    ensures
        (match result {
            Some(found) => Some(found@),
            None => None,
        }) == part_of(piece@, is_first),
{
    proof {
        reveal_strlit(".");
        reveal_strlit("..");
    }
    if piece.as_str().is_empty() {
        assert(piece@ =~= Seq::<char>::empty());
        None
    } else if text::same_text(piece.as_str(), ".") {
        if is_first {
            Some(Component::CurDir)
        } else {
            None
        }
    } else if text::same_text(piece.as_str(), "..") {
        Some(Component::ParentDir)
    } else {
        Some(Component::Normal(piece))
    }
}

/// The components of a path.
pub fn components(path: &str) -> (result: Vec<Component>)
    ensures
        parts(result@) == components_of(path@),
{
    let chars = text::characters(path);
    let mut result: Vec<Component> = Vec::new();
    let ghost mut root: Seq<Part> = Seq::empty();
    if chars.len() > 0 && chars[0] == '/' {
        result.push(Component::RootDir);
        proof {
            root = seq![Part::RootDir];
        }
    }
    let mut piece = String::new();
    let mut is_first: bool = true;
    let ghost mut done: Seq<Seq<char>> = Seq::empty();
    let mut i: usize = 0;
    assert(split_on(chars@.take(0), '/') =~= done.push(piece@));
    assert(parts(result@) =~= root + parts_of(done));
    while i < chars.len()
        invariant
            i <= chars@.len(),
            chars@ == path@,
            split_on(chars@.take(i as int), '/') == done.push(piece@),
            is_first == (done.len() == 0),
            parts(result@) == root + parts_of(done),
        decreases chars@.len() - i,
    {
        let ch = chars[i];
        assert(chars@.take(i + 1).drop_last() =~= chars@.take(i as int));
        assert(chars@.take(i + 1).last() == ch);
        if ch == '/' {
            let ghost finished = piece@;
            let ghost before = parts(result@);
            match component(piece, is_first) {
                Some(found) => {
                    result.push(found);
                    assert(parts(result@) =~= before.push(found@));
                },
                None => {},
            }
            proof {
                assert(done.push(finished).drop_last() =~= done);
                assert(parts(result@) =~= root + parts_of(done.push(finished)));
                done = done.push(finished);
            }
            piece = String::new();
            is_first = false;
        } else {
            assert(done.push(piece@).drop_last() =~= done);
            piece.push(ch);
        }
        i += 1;
    }
    assert(chars@.take(i as int) =~= path@);
    let ghost finished = piece@;
    let ghost before = parts(result@);
    match component(piece, is_first) {
        Some(found) => {
            result.push(found);
            assert(parts(result@) =~= before.push(found@));
        },
        None => {},
    }
    assert(done.push(finished).drop_last() =~= done);
    assert(parts(result@) =~= root + parts_of(done.push(finished)));
    assert(parts(result@) =~= components_of(path@));
    result
}

/// The name that a path ends in.
pub fn file_name(path: &str) -> (result: Option<String>)
    ensures
        text::optional_text(result) == file_name_of(path@),
{
    let mut found = components(path);
    assert(parts(found@).len() == found@.len());
    match found.pop() {
        Some(Component::Normal(name)) => Some(name),
        _ => None,
    }
}

/// Where the extension of a file name starts.
fn extension_start(name: &Vec<char>) -> (length: usize)
    ensures
        length == stem_length(name@),
        length <= name@.len(),
{
    let mut i: usize = name.len();
    while i > 0
        invariant
            i <= name@.len(),
            forall|j: int| i <= j < name@.len() ==> name@[j] != '.',
        decreases i,
    {
        i -= 1;
        if name[i] == '.' {
            assert(name@.contains(name@[i as int]));
            proof {
                name@.index_of_last_ensures('.');
            }
            return if i > 0 {
                i
            } else {
                name.len()
            };
        }
    }
    proof {
        name@.index_of_last_ensures('.');
    }
    name.len()
}

/// The name that a path ends in, without its extension.
pub fn file_stem(path: &str) -> (result: Option<String>)
    ensures
        text::optional_text(result) == file_stem_of(path@),
{
    match file_name(path) {
        Some(name) => {
            let chars = text::characters(name.as_str());
            let length: usize = extension_start(&chars);
            assert(chars@.subrange(0, length as int) =~= chars@.take(length as int));
            Some(text::text_between(&chars, 0, length))
        },
        None => None,
    }
}

/// The extension of the name that a path ends in.
pub fn extension(path: &str) -> (result: Option<String>)
    ensures
        text::optional_text(result) == extension_of(path@),
{
    match file_name(path) {
        Some(name) => {
            let chars = text::characters(name.as_str());
            let length: usize = extension_start(&chars);
            if length < chars.len() {
                assert(chars@.subrange(length + 1, chars@.len() as int) =~= chars@.skip(
                    length + 1,
                ));
                Some(text::text_between(&chars, length + 1, chars.len()))
            } else {
                None
            }
        },
        None => None,
    }
}

/// A path below another one.
pub fn join(base: &str, path: &str) -> (result: String)
    ensures
        result@ == joined(base@, path@),
{
    let start = text::characters(path);
    if start.len() > 0 && start[0] == '/' {
        return path.to_string();
    }
    let chars = text::characters(base);
    if chars.len() == 0 || chars[chars.len() - 1] == '/' {
        base.to_string().concat(path)
    } else {
        base.to_string().concat("/").concat(path)
    }
}

/// How two components stand to each other.
fn order_components(a: &Component, b: &Component) -> (result: Order)
    ensures
        result == part_order(a@, b@),
{
    match (a, b) {
        (Component::Normal(x), Component::Normal(y)) => order::order_texts(x.as_str(), y.as_str()),
        _ => {
            let (x, y): (u8, u8) = (component_class(a), component_class(b));
            if x < y {
                Order::Less
            } else if x == y {
                Order::Same
            } else {
                Order::Greater
            }
        },
    }
}

/// Which kind of component comes first.
fn component_class(component: &Component) -> (class: u8)
    ensures
        class == part_class(component@),
{
    match component {
        Component::RootDir => 0,
        Component::CurDir => 1,
        Component::ParentDir => 2,
        Component::Normal(_) => 3,
    }
}

/// How two lists of components stand to each other.
pub fn order_component_lists(a: &Vec<Component>, b: &Vec<Component>) -> (result: Order)
    ensures
        result == order::lexicographic(parts(a@), parts(b@), by_part()),
{
    let mut i: usize = 0;
    let ghost left = parts(a@);
    let ghost right = parts(b@);
    assert(left.skip(0) =~= left);
    assert(right.skip(0) =~= right);
    while i < a.len() && i < b.len()
        invariant
            i <= a@.len(),
            i <= b@.len(),
            left == parts(a@),
            right == parts(b@),
            order::lexicographic(left, right, by_part()) == order::lexicographic(
                left.skip(i as int),
                right.skip(i as int),
                by_part(),
            ),
        decreases a@.len() - i,
    {
        let found = order_components(&a[i], &b[i]);
        assert(left.skip(i as int)[0] == a@[i as int]@);
        assert(right.skip(i as int)[0] == b@[i as int]@);
        match found {
            Order::Same => {},
            _ => {
                return found;
            },
        }
        assert(left.skip(i as int).drop_first() =~= left.skip(i + 1));
        assert(right.skip(i as int).drop_first() =~= right.skip(i + 1));
        i += 1;
    }
    if i < b.len() {
        Order::Less
    } else if i < a.len() {
        Order::Greater
    } else {
        Order::Same
    }
}

/// How two paths stand to each other.
pub fn order_paths(a: &str, b: &str) -> (result: Order)
    ensures
        result == path_order(a@, b@),
{
    let left = components(a);
    let right = components(b);
    order_component_lists(&left, &right)
}

/// Whether two paths have the same components.
pub fn same_path(a: &str, b: &str) -> (same: bool)
    ensures
        same == (components_of(a@) == components_of(b@)),
{
    proof {
        lemma_path_order();
    }
    match order_paths(a, b) {
        Order::Same => true,
        _ => false,
    }
}

/// One more character changes at most the last component of a path, or adds one.
pub proof fn lemma_components_grow(path: Seq<char>)
    requires
        path.len() > 0,
    ensures
        ({
            let before = components_of(path.drop_last());
            let after = components_of(path);
            ||| after == before
            ||| after.len() == before.len() + 1 && after.drop_last() == before
            ||| after.len() == before.len() > 0 && after.drop_last() == before.drop_last()
        }),
        components_of(path) != components_of(path.drop_last()) && components_of(path).last()
            is Normal ==> {
            let pieces = split_on(path, '/');
            &&& components_of(path).last() == Part::Normal(pieces.last())
            &&& pieces.last().len() <= path.len()
            &&& path.skip(path.len() - pieces.last().len()) == pieces.last()
        },
{
    reveal_strlit(".");
    reveal_strlit("..");
    let shorter = path.drop_last();
    lemma_pieces(path);
    lemma_pieces(shorter);
    let pieces = split_on(path, '/');
    let before = split_on(shorter, '/');
    if path.last() == '/' {
        assert(pieces.drop_last() =~= before);
        if shorter.len() == 0 {
            assert(before =~= seq![Seq::<char>::empty()]);
            assert(before.drop_last() =~= Seq::<Seq<char>>::empty());
            lemma_empty_path(shorter);
            assert(pieces =~= seq![Seq::<char>::empty(), Seq::<char>::empty()]);
            assert(parts_of(pieces) =~= Seq::<Part>::empty());
            assert(components_of(path) =~= seq![Part::RootDir]);
            assert(components_of(path).drop_last() =~= components_of(shorter));
        } else {
            assert(shorter[0] == path[0]);
        }
    } else {
        assert(pieces.drop_last() =~= before.drop_last());
        if shorter.len() > 0 {
            assert(shorter[0] == path[0]);
        }
        let kept = parts_of(before.drop_last());
        let first = before.len() == 1;
        assert(pieces.last().len() > 0);
        let root: Seq<Part> = if is_absolute(path) {
            seq![Part::RootDir]
        } else {
            Seq::empty()
        };
        assert(components_of(path) =~= root + parts_of(pieces));
        assert(components_of(shorter) =~= root + parts_of(before));
        match part_of(pieces.last(), first) {
            Some(part) => {
                assert(components_of(path).drop_last() =~= root + kept);
                match part_of(before.last(), first) {
                    Some(old_part) => {
                        assert(components_of(shorter).drop_last() =~= root + kept);
                    },
                    None => {
                        assert(components_of(shorter) =~= root + kept);
                    },
                }
            },
            None => {
                assert(part_of(before.last(), first) is None);
                assert(components_of(path) =~= components_of(shorter));
            },
        }
    }
}

/// The empty path has no components.
proof fn lemma_empty_path(path: Seq<char>)
    requires
        path.len() == 0,
    ensures
        components_of(path) == Seq::<Part>::empty(),
        parts_of(split_on(path, '/')) == Seq::<Part>::empty(),
{
    let pieces = split_on(path, '/');
    assert(pieces.drop_last() =~= Seq::<Seq<char>>::empty());
    assert(parts_of(pieces.drop_last()) =~= Seq::<Part>::empty());
    assert(pieces.last() =~= Seq::<char>::empty());
}

/// There is always a last piece, and a path ends in it.
proof fn lemma_pieces(path: Seq<char>)
    ensures
        split_on(path, '/').len() > 0,
        split_on(path, '/').last().len() <= path.len(),
        path.skip(path.len() - split_on(path, '/').last().len()) == split_on(path, '/').last(),
        path.len() > 0 ==> split_on(path.drop_last(), '/').len() > 0,
    decreases path.len(),
{
    if path.len() == 0 {
        assert(path.skip(0) =~= Seq::<char>::empty());
    } else {
        let shorter = path.drop_last();
        lemma_pieces(shorter);
        let pieces = split_on(path, '/');
        let length = pieces.last().len();
        if path.last() == '/' {
            assert(path.skip(path.len() - length) =~= pieces.last());
        } else {
            let before = split_on(shorter, '/').last();
            assert(path.skip(path.len() - length) =~= shorter.skip(shorter.len() - before.len()).push(
                path.last(),
            ));
        }
    }
}

/// A path that has components has a beginning with all of them but the last.
proof fn lemma_parent_exists(path: Seq<char>) -> (length: int)
    requires
        components_of(path).len() > 0,
    ensures
        0 <= length < path.len(),
        components_of(path.take(length)) == components_of(path).drop_last(),
    decreases path.len(),
{
    let found = components_of(path);
    if path.len() == 0 {
        lemma_empty_path(path);
        0
    } else {
        let shorter = path.drop_last();
        lemma_components_grow(path);
        assert(path.take(path.len() - 1) =~= shorter);
        if components_of(shorter).len() + 1 == found.len() {
            path.len() - 1
        } else {
            let length = lemma_parent_exists(shorter);
            assert(path.take(length) =~= shorter.take(length));
            length
        }
    }
}

/// The beginning of a path up to where it has the wanted components.
fn beginning(path: &Vec<char>, wanted: &Vec<Component>) -> (end: usize)
    ensures
        end == shortest_beginning(path@, parts(wanted@), 0),
        end <= path@.len(),
{
    let mut end: usize = 0;
    while end < path.len()
        invariant
            end <= path@.len(),
            shortest_beginning(path@, parts(wanted@), 0) == shortest_beginning(
                path@,
                parts(wanted@),
                end as int,
            ),
        decreases path@.len() - end,
    {
        let prefix = text::text_between(path, 0, end);
        assert(prefix@ =~= path@.take(end as int));
        let found = components(prefix.as_str());
        proof {
            lemma_path_order();
            lemma_same_components(parts(found@), parts(wanted@));
        }
        match order_component_lists(&found, wanted) {
            Order::Same => {
                return end;
            },
            _ => {},
        }
        end += 1;
    }
    end
}

/// Lists of components are the same to the order exactly if they are equal.
proof fn lemma_same_components(a: Seq<Part>, b: Seq<Part>)
    ensures
        order::lexicographic(a, b, by_part()) == Order::Same <==> a == b,
    decreases a.len(),
{
    order::lemma_text_order();
    let texts = order::by_text();
    if a.len() > 0 && b.len() > 0 {
        lemma_same_components(a.drop_first(), b.drop_first());
        assert(a =~= seq![a[0]] + a.drop_first());
        assert(b =~= seq![b[0]] + b.drop_first());
        match (a[0], b[0]) {
            (Part::Normal(x), Part::Normal(y)) => {
                assert(order::text_order(x, y) == texts(x, y));
                assert(texts(x, x) == Order::Same);
            },
            _ => {},
        }
        assert(by_part()(a[0], b[0]) == Order::Same <==> a[0] == b[0]);
    } else {
        assert(a.len() == b.len() ==> a =~= b);
    }
}

/// The path of the directory that a path is in.
pub fn parent(path: &str) -> (result: Option<String>)
    ensures
        text::optional_text(result) == parent_of(path@),
{
    let mut found = components(path);
    assert(parts(found@).len() == found@.len());
    let ghost all = parts(found@);
    match found.pop() {
        None => {
            return None;
        },
        Some(Component::RootDir) => {
            return None;
        },
        Some(_) => {},
    }
    assert(parts(found@) =~= all.drop_last());
    let chars = text::characters(path);
    let end: usize = beginning(&chars, &found);
    assert(chars@.subrange(0, end as int) =~= path@.take(end as int));
    Some(text::text_between(&chars, 0, end))
}

/// Where some beginning has the wanted components, the shortest one has them, and the beginning
/// that is one character shorter has not.
pub proof fn lemma_shortest_beginning(path: Seq<char>, wanted: Seq<Part>, from: int, witness: int)
    requires
        0 <= from <= witness <= path.len(),
        components_of(path.take(witness)) == wanted,
        from > 0 ==> components_of(path.take(from - 1)) != wanted,
    ensures
        ({
            let end = shortest_beginning(path, wanted, from);
            &&& from <= end <= witness
            &&& components_of(path.take(end)) == wanted
            &&& end > 0 ==> components_of(path.take(end - 1)) != wanted
        }),
    decreases path.len() - from,
{
    if from < path.len() && components_of(path.take(from)) != wanted {
        lemma_shortest_beginning(path, wanted, from + 1, witness);
    } else if from >= path.len() {
        assert(from == witness);
    }
}

/// The directory that a path is in has all the components of the path but the last, and is a
/// beginning of it.
pub proof fn law_parent_drops_the_last_component(path: Seq<char>)
    ensures
        parent_of(path) matches Some(parent) ==> {
            &&& components_of(parent) == components_of(path).drop_last()
            &&& parent.len() < path.len()
            &&& parent == path.take(parent.len() as int)
        },
{
    if parent_of(path) is Some {
        let witness = lemma_parent_exists(path);
        lemma_shortest_beginning(path, components_of(path).drop_last(), 0, witness);
    }
}

/// The shortest beginning that has all the components of a path that ends in a name ends in that
/// name itself.
pub proof fn lemma_name_at_the_end(path: Seq<char>)
    requires
        file_name_of(path) is Some,
    ensures
        ({
            let name = file_name_of(path)->0;
            let end = shortest_beginning(path, components_of(path), 0);
            &&& name.len() <= end <= path.len()
            &&& path.subrange(end - name.len(), end) == name
        }),
{
    let found = components_of(path);
    let name = file_name_of(path)->0;
    assert(path.take(path.len() as int) =~= path);
    lemma_shortest_beginning(path, found, 0, path.len() as int);
    let end = shortest_beginning(path, found, 0);
    let kept = path.take(end);
    if end == 0 {
        lemma_empty_path(kept);
    } else {
        assert(kept.drop_last() =~= path.take(end - 1));
        lemma_components_grow(kept);
        let last = split_on(kept, '/').last();
        assert(name == last);
        assert(kept.skip(kept.len() - last.len()) =~= path.subrange(end - name.len(), end));
    }
}

/// A path with another extension.
pub fn with_extension(path: &str, extension: &str) -> (result: String)
    requires
        !extension@.contains('/'),
    ensures
        result@ == extended(path@, extension@),
{
    match file_name(path) {
        Some(name) => {
            proof {
                lemma_name_at_the_end(path@);
            }
            let name_chars = text::characters(name.as_str());
            let chars = text::characters(path);
            let all = components(path);
            let end: usize = beginning(&chars, &all);
            let kept: usize = end - name_chars.len() + extension_start(&name_chars);
            if name_chars.len() > 1 && extension_start(&name_chars) == 1 && name_chars[0] == '.'
                && end == chars.len() {
                assert(chars@.subrange(0, kept + 1) =~= path@.take(kept + 1));
                return text::text_between(&chars, 0, kept + 1);
            }
            assert(chars@.subrange(0, kept as int) =~= path@.take(kept as int));
            let stem = text::text_between(&chars, 0, kept);
            if extension.is_empty() {
                stem
            } else {
                stem.concat(".").concat(extension)
            }
        },
        None => path.to_string(),
    }
}

} // verus!
