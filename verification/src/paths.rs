//! File paths as texts with `/` between their parts.
//!
//! A path is read as a list of parts: repeated slashes, a slash at the end, and a `.` anywhere but
//! at the start stand for nothing. Two paths are the same where their parts are.
//!
//! This is how Unix reads paths. A backslash, or a colon behind a drive letter, is part of a name
//! like any other character; how Windows reads paths is not modelled.
use vstd::prelude::*;
use crate::ordered::{
    insert_ordered, is_total_order, law_text_order, lemma_insert_at, lemma_lexicographic_total,
    lexicographic, text_before, text_less, text_order,
};
use crate::text::{
    join_range, joined, last_index, law_split_joined, lemma_last_index, lemma_split_where, only,
    replace_char, replaced, rsplit_once, same_text, split, split_where, texts,
};

verus! {

/// One part of a path.
pub enum PathPart {
    /// The slash at the start of an absolute path.
    Root,
    /// A `.` at the start of a path.
    Current,
    /// A `..`.
    Parent,
    /// Any other name.
    Name(String),
}

/// The model of a [`PathPart`].
pub enum Part {
    Root,
    Current,
    Parent,
    Name(Seq<char>),
}

impl View for PathPart {
    type V = Part;

    open spec fn view(&self) -> Part {
        match self {
            PathPart::Root => Part::Root,
            PathPart::Current => Part::Current,
            PathPart::Parent => Part::Parent,
            PathPart::Name(name) => Part::Name(name@),
        }
    }
}

/// The models of a list of parts.
pub open spec fn part_views(v: Seq<PathPart>) -> Seq<Part> {
    Seq::new(v.len(), |i: int| v[i]@)
}

/// The texts between the slashes of a path.
pub open spec fn pieces(path: Seq<char>) -> Seq<Seq<char>> {
    split_where(path, only('/'))
}

/// Whether a path starts at the root.
pub open spec fn is_absolute_path(path: Seq<char>) -> bool {
    path.len() > 0 && path[0] == '/'
}

/// The part that the piece with the index `i` stands for, if any.
pub open spec fn part_at(ps: Seq<Seq<char>>, i: int) -> Option<Part> {
    if ps[i].len() == 0 {
        None
    } else if ps[i] == "."@ {
        if i == 0 {
            Some(Part::Current)
        } else {
            None
        }
    } else if ps[i] == ".."@ {
        Some(Part::Parent)
    } else {
        Some(Part::Name(ps[i]))
    }
}

/// The parts that the first `n` pieces stand for.
pub open spec fn parts_upto(ps: Seq<Seq<char>>, n: int) -> Seq<Part>
    decreases n,
{
    if n <= 0 {
        Seq::empty()
    } else {
        match part_at(ps, n - 1) {
            Some(part) => parts_upto(ps, n - 1).push(part),
            None => parts_upto(ps, n - 1),
        }
    }
}

/// The parts of a path.
pub open spec fn components(path: Seq<char>) -> Seq<Part> {
    let names = parts_upto(pieces(path), pieces(path).len() as int);
    if is_absolute_path(path) {
        seq![Part::Root] + names
    } else {
        names
    }
}

/// Whether two texts write the same path.
pub open spec fn same_path(a: Seq<char>, b: Seq<char>) -> bool {
    components(a) == components(b)
}

/// The last part of a path, where it is a name.
pub open spec fn file_name_of(path: Seq<char>) -> Option<Seq<char>> {
    let parts = components(path);
    if parts.len() > 0 {
        match parts.last() {
            Part::Name(name) => Some(name),
            _ => None,
        }
    } else {
        None
    }
}

/// What follows the last dot of the file name, unless that dot is its first character.
pub open spec fn extension_of(path: Seq<char>) -> Option<Seq<char>> {
    match file_name_of(path) {
        Some(name) => if last_index(name, '.') > 0 {
            Some(name.skip(last_index(name, '.') + 1))
        } else {
            None
        },
        None => None,
    }
}

/// The file name up to its last dot, unless that dot is its first character.
pub open spec fn file_stem_of(path: Seq<char>) -> Option<Seq<char>> {
    match file_name_of(path) {
        Some(name) => if last_index(name, '.') > 0 {
            Some(name.take(last_index(name, '.')))
        } else {
            Some(name)
        },
        None => None,
    }
}

/// `path` as seen from the directory `base`.
pub open spec fn joined_path(base: Seq<char>, path: Seq<char>) -> Seq<char> {
    if is_absolute_path(path) {
        path
    } else if base.len() == 0 || base.last() == '/' {
        base + path
    } else {
        base + "/"@ + path
    }
}

/// The index from which on, starting at `i`, the pieces follow the first `skip` parts.
pub open spec fn start_after(ps: Seq<Seq<char>>, skip: int, i: int) -> int
    decreases ps.len() - i,
{
    if i >= ps.len() || i < 0 {
        ps.len() as int
    } else if part_at(ps, i) is None {
        start_after(ps, skip, i + 1)
    } else if skip <= 0 {
        i
    } else {
        start_after(ps, skip - 1, i + 1)
    }
}

/// The end of the pieces before `j` without those at the end that stand for nothing.
pub open spec fn end_before(ps: Seq<Seq<char>>, j: int) -> int
    decreases j,
{
    if j <= 0 {
        0
    } else if part_at(ps, j - 1) is Some {
        j
    } else {
        end_before(ps, j - 1)
    }
}

/// What is left of `path` after its first `n` parts, written as in `path`.
pub open spec fn after_parts(path: Seq<char>, n: int) -> Seq<char> {
    let ps = pieces(path);
    let end = end_before(ps, ps.len() as int);
    if n <= 0 {
        if end == 0 && is_absolute_path(path) {
            "/"@
        } else {
            joined(ps.take(end), "/"@)
        }
    } else {
        let start = start_after(
            ps,
            if is_absolute_path(path) {
                n - 1
            } else {
                n
            },
            0,
        );
        if start < end {
            joined(ps.subrange(start, end), "/"@)
        } else {
            Seq::empty()
        }
    }
}

/// `path` without the directory `base` that it starts with, part by part; `None` where it does
/// not start with it.
pub open spec fn without_base(path: Seq<char>, base: Seq<char>) -> Option<Seq<char>> {
    let n = components(base).len() as int;
    if n <= components(path).len() && components(path).take(n) == components(base) {
        Some(after_parts(path, n))
    } else {
        None
    }
}

/// `path` relative to `repo_root` where it lies below it, else `path`.
pub open spec fn relative_to(path: Seq<char>, repo_root: Seq<char>) -> Seq<char> {
    match without_base(path, repo_root) {
        Some(rest) => rest,
        None => path,
    }
}

/// A path with `/` for every backslash.
pub open spec fn path_text(path: Seq<char>) -> Seq<char> {
    replaced(path, '\\', '/')
}

/// The rank of the kinds of parts: the root first, names last.
pub open spec fn part_rank(p: Part) -> int {
    match p {
        Part::Root => 0,
        Part::Current => 1,
        Part::Parent => 2,
        Part::Name(_) => 3,
    }
}

/// Whether the part `a` comes before the part `b`: by kind, then names in dictionary order.
pub open spec fn part_less(a: Part, b: Part) -> bool {
    match (a, b) {
        (Part::Name(x), Part::Name(y)) => text_less(x, y),
        _ => part_rank(a) < part_rank(b),
    }
}

/// The order of parts.
pub open spec fn part_order() -> spec_fn(Part, Part) -> bool {
    |a: Part, b: Part| part_less(a, b)
}

/// Whether the path `a` comes before the path `b`, compared part by part.
pub open spec fn path_less(a: Seq<char>, b: Seq<char>) -> bool {
    lexicographic(components(a), components(b), part_order())
}

/// The order of paths.
pub open spec fn path_order() -> spec_fn(Seq<char>, Seq<char>) -> bool {
    |a: Seq<char>, b: Seq<char>| path_less(a, b)
}

/// The order of paths is strict, and two paths without a place before each other are the same.
pub proof fn law_path_order()
    ensures
        crate::ordered::is_strict_order(path_order()),
        forall|a: Seq<char>, b: Seq<char>|
            same_path(a, b) <==> !#[trigger] path_less(a, b) && !path_less(b, a),
{
    law_text_order();
    assert(is_total_order(part_order())) by {
        assert forall|a: Part, b: Part|
            a == b || #[trigger] part_order()(a, b) || part_order()(b, a) by {
            match (a, b) {
                (Part::Name(x), Part::Name(y)) => {
                    assert(x == y || text_order()(x, y) || text_order()(y, x));
                },
                _ => {},
            }
        }
        assert forall|a: Part| !#[trigger] part_order()(a, a) by {
            match a {
                Part::Name(x) => {
                    assert(!text_order()(x, x));
                },
                _ => {},
            }
        }
        assert forall|a: Part, b: Part, c: Part| #[trigger]
            part_order()(a, b) && #[trigger] part_order()(b, c) implies part_order()(a, c) by {
            match (a, b, c) {
                (Part::Name(x), Part::Name(y), Part::Name(z)) => {
                    assert(text_order()(x, y) && text_order()(y, z));
                },
                _ => {},
            }
        }
    }
    let order = |a: Seq<Part>, b: Seq<Part>| lexicographic(a, b, part_order());
    lemma_lexicographic_total(order, part_order());
    assert forall|a: Seq<char>| !#[trigger] path_order()(a, a) by {
        assert(!order(components(a), components(a)));
    }
    assert forall|a: Seq<char>, b: Seq<char>, c: Seq<char>| #[trigger]
        path_order()(a, b) && #[trigger] path_order()(b, c) implies path_order()(a, c) by {
        assert(order(components(a), components(b)) && order(components(b), components(c)));
    }
    assert forall|a: Seq<char>, b: Seq<char>|
        same_path(a, b) <==> !#[trigger] path_less(a, b) && !path_less(b, a) by {
        let x = components(a);
        let y = components(b);
        assert(x == y || order(x, y) || order(y, x));
        assert(!order(x, x));
    }
}

// ---------------------------------------------------------------------------
// Reading and taking apart
// ---------------------------------------------------------------------------

pub(crate) fn is_slash(c: char) -> (r: bool)
    ensures
        r == (c == '/'),
{
    c == '/'
}

fn split_path(path: &str) -> (ps: Vec<String>)
    ensures
        texts(ps@) == pieces(path@),
        ps@.len() >= 1,
{
    proof {
        lemma_split_where(path@, only('/'));
    }
    let ps = split(path, is_slash, Ghost(only('/')));
    proof {
        assert(texts(ps@).len() == ps@.len());
    }
    ps
}

fn part_of(ps: &Vec<String>, i: usize) -> (r: Option<PathPart>)
    requires
        i < ps@.len(),
    ensures
        r is Some <==> part_at(texts(ps@), i as int) is Some,
        r matches Some(part) ==> part_at(texts(ps@), i as int) == Some(part@),
{
    let piece = ps[i].as_str();
    proof {
        assert(texts(ps@)[i as int] == piece@);
    }
    if piece.is_empty() {
        None
    } else if same_text(piece, ".") {
        if i == 0 {
            Some(PathPart::Current)
        } else {
            None
        }
    } else if same_text(piece, "..") {
        Some(PathPart::Parent)
    } else {
        Some(PathPart::Name(piece.to_owned()))
    }
}

/// Whether `path` starts at the root.
pub fn is_absolute(path: &str) -> (r: bool)
    ensures
        r == is_absolute_path(path@),
{
    let n: usize = path.unicode_len();
    n > 0 && path.get_char(0) == '/'
}

/// The parts of `path`.
pub fn path_parts(path: &str) -> (parts: Vec<PathPart>)
    ensures
        part_views(parts@) == components(path@),
{
    let ps = split_path(path);
    let ghost model = pieces(path@);
    let mut parts: Vec<PathPart> = Vec::new();
    let absolute = is_absolute(path);
    if absolute {
        parts.push(PathPart::Root);
    }
    let ghost head = if absolute {
        seq![Part::Root]
    } else {
        Seq::empty()
    };
    let mut i: usize = 0;
    proof {
        assert(part_views(parts@) =~= head + parts_upto(model, 0));
    }
    while i < ps.len()
        invariant
            i <= ps@.len(),
            texts(ps@) == model,
            part_views(parts@) == head + parts_upto(model, i as int),
        decreases ps@.len() - i,
    {
        let ghost before = parts@;
        match part_of(&ps, i) {
            Some(part) => {
                let ghost view = part@;
                parts.push(part);
                proof {
                    assert(part_views(parts@) =~= part_views(before).push(view));
                    assert(part_views(parts@) =~= head + parts_upto(model, i + 1));
                }
            },
            None => {},
        }
        i += 1;
    }
    proof {
        assert(model.len() == ps@.len());
        if !absolute {
            assert(head + parts_upto(model, model.len() as int) =~= parts_upto(
                model,
                model.len() as int,
            ));
        }
    }
    parts
}

fn same_part(a: &PathPart, b: &PathPart) -> (r: bool)
    ensures
        r == (a@ == b@),
{
    match (a, b) {
        (PathPart::Root, PathPart::Root) => true,
        (PathPart::Current, PathPart::Current) => true,
        (PathPart::Parent, PathPart::Parent) => true,
        (PathPart::Name(x), PathPart::Name(y)) => same_text(x.as_str(), y.as_str()),
        _ => false,
    }
}

fn rank_of(p: &PathPart) -> (r: u8)
    ensures
        r == part_rank(p@),
{
    match p {
        PathPart::Root => 0,
        PathPart::Current => 1,
        PathPart::Parent => 2,
        PathPart::Name(_) => 3,
    }
}

fn part_before(a: &PathPart, b: &PathPart) -> (r: bool)
    ensures
        r == part_less(a@, b@),
{
    match (a, b) {
        (PathPart::Name(x), PathPart::Name(y)) => text_before(x.as_str(), y.as_str()),
        _ => rank_of(a) < rank_of(b),
    }
}

/// Whether the parts of `base` are the first parts of `parts`.
fn starts_with_parts(parts: &Vec<PathPart>, base: &Vec<PathPart>) -> (r: bool)
    ensures
        r == (base@.len() <= parts@.len() && part_views(parts@).take(base@.len() as int)
            == part_views(base@)),
{
    if base.len() > parts.len() {
        return false;
    }
    let mut i: usize = 0;
    while i < base.len()
        invariant
            i <= base@.len() <= parts@.len(),
            forall|k: int| 0 <= k < i ==> part_views(parts@)[k] == part_views(base@)[k],
        decreases base@.len() - i,
    {
        if !same_part(&parts[i], &base[i]) {
            proof {
                assert(part_views(parts@).take(base@.len() as int)[i as int] == parts@[i as int]@);
                assert(part_views(base@)[i as int] == base@[i as int]@);
            }
            return false;
        }
        i += 1;
    }
    proof {
        assert(part_views(parts@).take(base@.len() as int) =~= part_views(base@));
    }
    true
}

/// Whether `a` and `b` write the same path.
pub fn paths_equal(a: &str, b: &str) -> (r: bool)
    ensures
        r == same_path(a@, b@),
{
    let x = path_parts(a);
    let y = path_parts(b);
    proof {
        assert(part_views(x@).take(x@.len() as int) =~= part_views(x@));
        assert(part_views(x@).len() == x@.len());
        assert(part_views(y@).len() == y@.len());
    }
    x.len() == y.len() && starts_with_parts(&x, &y)
}

/// Whether the path `a` comes before the path `b`, compared part by part.
pub fn path_before(a: &str, b: &str) -> (r: bool)
    ensures
        r == path_less(a@, b@),
{
    let x = path_parts(a);
    let y = path_parts(b);
    let ghost xs = part_views(x@);
    let ghost ys = part_views(y@);
    let mut i: usize = 0;
    proof {
        assert(xs.skip(0) =~= xs);
        assert(ys.skip(0) =~= ys);
    }
    while i < x.len() && i < y.len()
        invariant
            xs == part_views(x@),
            ys == part_views(y@),
            xs == components(a@),
            ys == components(b@),
            i <= x@.len(),
            i <= y@.len(),
            path_less(a@, b@) == lexicographic(
                xs.skip(i as int),
                ys.skip(i as int),
                part_order(),
            ),
        decreases x@.len() - i,
    {
        if !same_part(&x[i], &y[i]) {
            proof {
                assert(xs.skip(i as int)[0] == x@[i as int]@);
                assert(ys.skip(i as int)[0] == y@[i as int]@);
            }
            return part_before(&x[i], &y[i]);
        }
        proof {
            assert(xs.skip(i as int)[0] == x@[i as int]@);
            assert(ys.skip(i as int)[0] == y@[i as int]@);
            assert(xs.skip(i as int).drop_first() =~= xs.skip(i + 1));
            assert(ys.skip(i as int).drop_first() =~= ys.skip(i + 1));
        }
        i += 1;
    }
    i < y.len()
}

/// The last part of `path`, where it is a name.
pub fn file_name(path: &str) -> (r: Option<String>)
    ensures
        r is Some <==> file_name_of(path@) is Some,
        r matches Some(name) ==> file_name_of(path@) == Some(name@),
{
    let mut parts = path_parts(path);
    let ghost all = part_views(parts@);
    match parts.pop() {
        Some(PathPart::Name(name)) => {
            proof {
                assert(all.last() == Part::Name(name@));
            }
            Some(name)
        },
        Some(part) => {
            proof {
                assert(all.last() == part@);
            }
            None
        },
        None => None,
    }
}

/// Whether `path` without its last part is the directory `dir`; `path` has a last part.
pub(crate) fn parent_is(path: &str, dir: &str) -> (r: bool)
    requires
        components(path@).len() > 0,
    ensures
        r == (components(path@).drop_last() == components(dir@)),
{
    let parts = path_parts(path);
    let dir_parts = path_parts(dir);
    proof {
        assert(part_views(parts@).len() == parts@.len());
        assert(part_views(dir_parts@).len() == dir_parts@.len());
        assert(part_views(parts@).take(parts@.len() - 1) =~= part_views(parts@).drop_last());
    }
    parts.len() - 1 == dir_parts.len() && starts_with_parts(&parts, &dir_parts)
}

/// What follows the last dot of the file name, unless that dot is its first character.
pub fn extension(path: &str) -> (r: Option<String>)
    ensures
        r is Some <==> extension_of(path@) is Some,
        r matches Some(ext) ==> extension_of(path@) == Some(ext@),
{
    match file_name(path) {
        Some(name) => {
            proof {
                lemma_last_index(name@, '.');
            }
            match rsplit_once(name.as_str(), '.') {
                Some((before, after)) => {
                    if before.is_empty() {
                        None
                    } else {
                        Some(after.to_owned())
                    }
                },
                None => None,
            }
        },
        None => None,
    }
}

/// The file name up to its last dot, unless that dot is its first character.
pub fn file_stem(path: &str) -> (r: Option<String>)
    ensures
        r is Some <==> file_stem_of(path@) is Some,
        r matches Some(stem) ==> file_stem_of(path@) == Some(stem@),
{
    match file_name(path) {
        Some(name) => {
            proof {
                lemma_last_index(name@, '.');
            }
            match rsplit_once(name.as_str(), '.') {
                Some((before, after)) => {
                    if before.is_empty() {
                        Some(name)
                    } else {
                        Some(before.to_owned())
                    }
                },
                None => Some(name),
            }
        },
        None => None,
    }
}

/// `path` as seen from the directory `base`.
pub fn join_path(base: &str, path: &str) -> (r: String)
    ensures
        r@ == joined_path(base@, path@),
{
    if is_absolute(path) {
        return path.to_owned();
    }
    let n: usize = base.unicode_len();
    let mut out = base.to_owned();
    if n > 0 && base.get_char(n - 1) != '/' {
        out.append("/");
    }
    out.append(path);
    out
}

/// `path` without the directory `base` that it starts with, part by part; `None` where it does
/// not start with it.
pub fn strip_base(path: &str, base: &str) -> (r: Option<String>)
    ensures
        r is Some <==> without_base(path@, base@) is Some,
        r matches Some(rest) ==> without_base(path@, base@) == Some(rest@),
{
    let parts = path_parts(path);
    let base_parts = path_parts(base);
    proof {
        assert(part_views(parts@).len() == parts@.len());
        assert(part_views(base_parts@).len() == base_parts@.len());
    }
    if !starts_with_parts(&parts, &base_parts) {
        return None;
    }
    let n: usize = base_parts.len();
    let ps = split_path(path);
    let ghost model = pieces(path@);
    proof {
        assert(model.len() == ps@.len());
    }
    let mut end: usize = ps.len();
    while end > 0 && part_of(&ps, end - 1).is_none()
        invariant
            end <= ps@.len(),
            texts(ps@) == model,
            end_before(model, model.len() as int) == end_before(model, end as int),
        ensures
            end == end_before(model, model.len() as int),
        decreases end,
    {
        end -= 1;
    }
    let absolute = is_absolute(path);
    if n == 0 {
        if end == 0 && absolute {
            return Some("/".to_owned());
        }
        proof {
            assert(model.subrange(0, end as int) =~= model.take(end as int));
        }
        return Some(join_range(&ps, 0, end, "/"));
    }
    let mut skip: usize = if absolute {
        n - 1
    } else {
        n
    };
    let ghost wanted = start_after(model, skip as int, 0);
    let mut start: usize = 0;
    while start < ps.len()
        invariant
            start <= ps@.len(),
            texts(ps@) == model,
            model.len() == ps@.len(),
            start_after(model, skip as int, start as int) == wanted,
        ensures
            start == wanted,
        decreases ps@.len() - start,
    {
        if part_of(&ps, start).is_some() {
            if skip == 0 {
                break;
            }
            skip -= 1;
        }
        start += 1;
    }
    if start < end {
        Some(join_range(&ps, start, end, "/"))
    } else {
        Some(String::new())
    }
}

/// `path` relative to `repo_root` where it lies below it, else `path`.
pub fn relative_path(path: &str, repo_root: &str) -> (r: String)
    ensures
        r@ == relative_to(path@, repo_root@),
{
    match strip_base(path, repo_root) {
        Some(rest) => rest,
        None => path.to_owned(),
    }
}

/// `path` with `/` for every backslash.
pub fn path_string(path: &str) -> (r: String)
    ensures
        r@ == path_text(path@),
{
    replace_char(path, '\\', '/')
}

/// The place of the first of the `paths` that is the same as `path`, or their number where there
/// is none.
pub open spec fn path_place(paths: Seq<Seq<char>>, path: Seq<char>) -> int
    decreases paths.len(),
{
    if paths.len() == 0 {
        0
    } else if same_path(paths[0], path) {
        0
    } else {
        1 + path_place(paths.drop_first(), path)
    }
}

/// Where the place of a path is, seen from the paths before it.
pub proof fn lemma_path_place_is(paths: Seq<Seq<char>>, path: Seq<char>, k: int)
    requires
        0 <= k <= paths.len(),
        forall|i: int| 0 <= i < k ==> !same_path(#[trigger] paths[i], path),
        k < paths.len() ==> same_path(paths[k], path),
    ensures
        path_place(paths, path) == k,
    decreases paths.len(),
{
    if k > 0 {
        let rest = paths.drop_first();
        assert forall|i: int| 0 <= i < k - 1 implies !same_path(#[trigger] rest[i], path) by {
            assert(rest[i] == paths[i + 1]);
        }
        if k < paths.len() {
            assert(rest[k - 1] == paths[k]);
        }
        lemma_path_place_is(rest, path, k - 1);
    }
}

/// The place of a path: none before it is the same, and the one there is.
pub proof fn lemma_path_place(paths: Seq<Seq<char>>, path: Seq<char>)
    ensures
        0 <= path_place(paths, path) <= paths.len(),
        forall|i: int| 0 <= i < path_place(paths, path) ==> !same_path(#[trigger] paths[i], path),
        path_place(paths, path) < paths.len() ==> same_path(paths[path_place(paths, path)], path),
    decreases paths.len(),
{
    if paths.len() > 0 && !same_path(paths[0], path) {
        let rest = paths.drop_first();
        lemma_path_place(rest, path);
        assert forall|i: int| 0 <= i < path_place(paths, path) implies !same_path(
            #[trigger] paths[i],
            path,
        ) by {
            if i > 0 {
                assert(rest[i - 1] == paths[i]);
            }
        }
    }
}

/// Puts `path` at its place among the paths of `v`, where `v` does not hold the same path already.
pub fn insert_path(v: &mut Vec<String>, path: String)
    ensures
        texts(final(v)@) == insert_ordered(texts(old(v)@), path@, path_order()),
{
    let ghost before = texts(v@);
    let mut i: usize = v.len();
    while i > 0 && path_before(path.as_str(), v[i - 1].as_str())
        invariant
            i <= v@.len(),
            before == texts(v@),
            forall|k: int| i <= k < before.len() ==> path_less(path@, #[trigger] before[k]),
        ensures
            i > 0 ==> !path_less(path@, before[i - 1]),
        decreases i,
    {
        i -= 1;
    }
    proof {
        lemma_insert_at(before, path@, path_order(), i as int);
    }
    if i > 0 && !path_before(v[i - 1].as_str(), path.as_str()) {
        return ;
    }
    let ghost x = path@;
    v.insert(i, path);
    proof {
        assert(texts(v@) =~= before.insert(i as int, x));
    }
}

// ---------------------------------------------------------------------------
// Laws of paths
// ---------------------------------------------------------------------------

proof fn lemma_pieces_append(a: Seq<char>, b: Seq<char>)
    ensures
        pieces(a + seq!['/'] + b) == pieces(a) + pieces(b),
    decreases b.len(),
{
    let p = only('/');
    let s = a + seq!['/'] + b;
    lemma_split_where(a, p);
    lemma_split_where(b, p);
    if b.len() == 0 {
        assert(s.drop_last() =~= a);
        assert(s.last() == '/');
        assert(pieces(s) =~= pieces(a) + pieces(b));
    } else {
        let t = b.drop_last();
        lemma_pieces_append(a, t);
        lemma_split_where(t, p);
        assert(s.drop_last() =~= a + seq!['/'] + t);
        assert(s.last() == b.last());
        let before = pieces(a) + pieces(t);
        if b.last() == '/' {
            assert(before.push(Seq::empty()) =~= pieces(a) + pieces(t).push(Seq::empty()));
        } else {
            assert(before.last() == pieces(t).last());
            assert(before.drop_last().push(before.last().push(b.last())) =~= pieces(a) + pieces(
                t,
            ).drop_last().push(pieces(t).last().push(b.last())));
        }
    }
}

proof fn lemma_one_piece(s: Seq<char>)
    requires
        forall|i: int| 0 <= i < s.len() ==> #[trigger] s[i] != '/',
    ensures
        pieces(s) == seq![s],
    decreases s.len(),
{
    if s.len() == 0 {
        assert(s =~= Seq::empty());
    } else {
        let t = s.drop_last();
        assert forall|i: int| 0 <= i < t.len() implies #[trigger] t[i] != '/' by {
            assert(s[i] != '/');
        }
        lemma_one_piece(t);
        assert(s.last() == s[s.len() - 1]);
        assert(t.push(s.last()) =~= s);
        assert(pieces(s) =~= seq![s]);
    }
}

proof fn lemma_parts_prefix(ps: Seq<Seq<char>>, qs: Seq<Seq<char>>, n: int)
    requires
        n <= ps.len(),
        n <= qs.len(),
        forall|i: int| 0 <= i < n ==> #[trigger] ps[i] == qs[i],
    ensures
        parts_upto(ps, n) == parts_upto(qs, n),
    decreases n,
{
    if n > 0 {
        lemma_parts_prefix(ps, qs, n - 1);
        assert(ps[n - 1] == qs[n - 1]);
    }
}

/// The pieces from `from` on of a path stand for the same parts as they do by themselves.
proof fn lemma_parts_from(ps: Seq<Seq<char>>, from: int, n: int)
    requires
        0 < from,
        0 <= n,
        from + n <= ps.len(),
        n > 0 ==> ps[from] != "."@,
    ensures
        parts_upto(ps, from + n) == parts_upto(ps, from) + parts_upto(
            ps.subrange(from, from + n),
            n,
        ),
    decreases n,
{
    let qs = ps.subrange(from, from + n);
    if n == 0 {
        assert(parts_upto(ps, from) + parts_upto(qs, 0) =~= parts_upto(ps, from));
    } else {
        lemma_parts_from(ps, from, n - 1);
        lemma_parts_prefix(ps.subrange(from, from + n - 1), qs, n - 1);
        assert(qs[n - 1] == ps[from + n - 1]);
        if n == 1 {
            assert(qs[0] == ps[from]);
        }
        match part_at(ps, from + n - 1) {
            Some(part) => {
                assert(parts_upto(ps, from + n) =~= parts_upto(ps, from) + parts_upto(
                    qs,
                    n - 1,
                ).push(part));
            },
            None => {},
        }
    }
}

proof fn lemma_first_part(ps: Seq<Seq<char>>, n: int)
    requires
        1 <= n <= ps.len(),
        part_at(ps, 0) is Some,
    ensures
        parts_upto(ps, n).len() > 0,
        Some(parts_upto(ps, n)[0]) == part_at(ps, 0),
    decreases n,
{
    if n == 1 {
        assert(parts_upto(ps, 0) =~= Seq::empty());
    } else {
        lemma_first_part(ps, n - 1);
    }
}

proof fn lemma_pieces_absolute(path: Seq<char>)
    ensures
        pieces(path).len() >= 1,
        is_absolute_path(path) <==> pieces(path).len() > 1 && pieces(path)[0].len() == 0,
    decreases path.len(),
{
    let p = only('/');
    lemma_split_where(path, p);
    if path.len() > 0 {
        let t = path.drop_last();
        lemma_split_where(t, p);
        lemma_pieces_absolute(t);
        if t.len() > 0 {
            assert(t[0] == path[0]);
            if pieces(t).len() == 1 {
                law_split_joined(t, '/');
                assert(pieces(t)[0] == t);
            }
        } else {
            assert(path.last() == path[0]);
        }
    }
}

/// A path in a directory has the parts of the directory and then its own.
pub proof fn law_joined_path(base: Seq<char>, path: Seq<char>)
    requires
        base.len() > 0,
        !is_absolute_path(path),
        components(path).len() > 0 ==> components(path)[0] != Part::Current,
    ensures
        components(joined_path(base, path)) == components(base) + components(path),
{
    reveal_strlit("/");
    reveal_strlit(".");
    let all = joined_path(base, path);
    let qs = pieces(path);
    lemma_split_where(path, only('/'));
    if qs[0] == "."@ {
        lemma_first_part(qs, qs.len() as int);
    }
    let front = if base.last() == '/' {
        base.drop_last()
    } else {
        base
    };
    let ps = pieces(front);
    lemma_split_where(front, only('/'));
    lemma_pieces_append(front, path);
    assert("/"@ =~= seq!['/']);
    if base.last() == '/' {
        lemma_pieces_append(front, Seq::empty());
        assert(front + seq!['/'] + Seq::<char>::empty() =~= base);
        assert(front + seq!['/'] + path =~= all);
        let none = pieces(Seq::empty());
        assert(none[0].len() == 0 && none.len() == 1);
        let with = ps + none;
        assert(with[ps.len() as int] == none[0]);
        lemma_parts_prefix(with, ps, ps.len() as int);
        assert(parts_upto(with, with.len() as int) == parts_upto(ps, ps.len() as int));
        assert(pieces(base) == with);
    }
    assert(pieces(all) == ps + qs);
    let both = ps + qs;
    assert(both[ps.len() as int] == qs[0]);
    lemma_parts_from(both, ps.len() as int, qs.len() as int);
    assert(both.subrange(ps.len() as int, (ps.len() + qs.len()) as int) =~= qs);
    lemma_parts_prefix(both, ps, ps.len() as int);
    assert(all[0] == base[0]);
    assert(components(all) =~= components(base) + components(path));
}

/// A name by itself is a path with one part, and it is the file name of the path that it makes in
/// any directory.
pub proof fn law_name(base: Seq<char>, name: Seq<char>)
    requires
        name.len() > 0,
        name != "."@,
        name != ".."@,
        forall|i: int| 0 <= i < name.len() ==> #[trigger] name[i] != '/',
    ensures
        components(name) == seq![Part::Name(name)],
        file_name_of(joined_path(base, name)) == Some(name),
{
    lemma_one_piece(name);
    assert(name[0] != '/');
    assert(pieces(name)[0] == name);
    assert(parts_upto(pieces(name), 0) =~= Seq::empty());
    assert(parts_upto(pieces(name), 1) =~= seq![Part::Name(name)]);
    if base.len() > 0 {
        law_joined_path(base, name);
        assert((components(base) + components(name)).last() == Part::Name(name));
    } else {
        assert(base + name =~= name);
    }
}

/// A slash at the end of a path makes no difference.
pub proof fn law_slash_at_end(path: Seq<char>)
    requires
        path.len() > 0,
    ensures
        same_path(path, path.push('/')),
{
    lemma_pieces_append(path, Seq::empty());
    assert(path + seq!['/'] + Seq::<char>::empty() =~= path.push('/'));
    let ps = pieces(path);
    let none = pieces(Seq::empty());
    lemma_split_where(path, only('/'));
    let with = ps + none;
    assert(with[ps.len() as int] == none[0]);
    lemma_parts_prefix(with, ps, ps.len() as int);
    assert(parts_upto(with, with.len() as int) == parts_upto(ps, ps.len() as int));
    assert(path.push('/')[0] == path[0]);
}

/// The extension and the stem of a file name make it up, with a dot between them. The extension
/// holds no dot and the stem is not empty; a name that has no dot but at its start is its own stem.
pub proof fn law_extension(path: Seq<char>)
    ensures
        file_name_of(path) is None ==> extension_of(path) is None && file_stem_of(path) is None,
        file_name_of(path) matches Some(name) ==> ({
            let dotted = exists|i: int| 0 < i < name.len() && #[trigger] name[i] == '.';
            &&& file_stem_of(path) is Some
            &&& extension_of(path) is Some <==> dotted
            &&& !dotted ==> file_stem_of(path) == Some(name)
            &&& extension_of(path) matches Some(ext) ==> name == file_stem_of(path)->Some_0 + seq![
                '.',
            ] + ext && file_stem_of(path)->Some_0.len() > 0 && (forall|i: int|
                0 <= i < ext.len() ==> #[trigger] ext[i] != '.')
        }),
{
    if file_name_of(path) is Some {
        let name = file_name_of(path)->Some_0;
        let k = last_index(name, '.');
        lemma_last_index(name, '.');
        if k > 0 {
            assert(name[k] == '.');
            assert(name =~= name.take(k) + seq!['.'] + name.skip(k + 1));
        }
    }
}

/// A path with `/` for every backslash has no backslash left and is the same otherwise.
pub proof fn law_path_text(path: Seq<char>, i: int)
    requires
        0 <= i < path.len(),
    ensures
        path_text(path).len() == path.len(),
        path[i] == '\\' ==> path_text(path)[i] == '/',
        path[i] != '\\' ==> path_text(path)[i] == path[i],
{
}

proof fn lemma_pieces_joined(ps: Seq<Seq<char>>)
    requires
        ps.len() > 0,
        forall|i: int, k: int|
            0 <= i < ps.len() && 0 <= k < #[trigger] ps[i].len() ==> #[trigger] ps[i][k] != '/',
    ensures
        pieces(joined(ps, "/"@)) == ps,
    decreases ps.len(),
{
    reveal_strlit("/");
    assert("/"@ =~= seq!['/']);
    lemma_one_piece(ps.last());
    if ps.len() == 1 {
        assert(ps =~= seq![ps[0]]);
    } else {
        let init = ps.drop_last();
        assert forall|i: int, k: int|
            0 <= i < init.len() && 0 <= k < #[trigger] init[i].len() implies #[trigger] init[i][k]
            != '/' by {
            assert(ps[i][k] != '/');
        }
        lemma_pieces_joined(init);
        lemma_pieces_append(joined(init, "/"@), ps.last());
        assert(init + seq![ps.last()] =~= ps);
    }
}

proof fn lemma_start_after(ps: Seq<Seq<char>>, skip: int, i: int)
    requires
        0 <= i <= ps.len(),
        0 <= skip,
    ensures
        ({
            let start = start_after(ps, skip, i);
            &&& i <= start <= ps.len()
            &&& start < ps.len() ==> part_at(ps, start) is Some && parts_upto(ps, start).len()
                == parts_upto(ps, i).len() + skip
            &&& start == ps.len() ==> parts_upto(ps, start).len() <= parts_upto(ps, i).len() + skip
        }),
    decreases ps.len() - i,
{
    if i < ps.len() {
        if part_at(ps, i) is None {
            lemma_start_after(ps, skip, i + 1);
            assert(parts_upto(ps, i + 1) == parts_upto(ps, i));
        } else if skip > 0 {
            lemma_start_after(ps, skip - 1, i + 1);
            assert(parts_upto(ps, i + 1).len() == parts_upto(ps, i).len() + 1);
        }
    }
}

proof fn lemma_end_before(ps: Seq<Seq<char>>, j: int)
    requires
        0 <= j <= ps.len(),
    ensures
        0 <= end_before(ps, j) <= j,
        parts_upto(ps, end_before(ps, j)) == parts_upto(ps, j),
        end_before(ps, j) > 0 ==> part_at(ps, end_before(ps, j) - 1) is Some,
    decreases j,
{
    if j > 0 && part_at(ps, j - 1) is None {
        lemma_end_before(ps, j - 1);
    }
}

proof fn lemma_parts_grow(ps: Seq<Seq<char>>, m: int, n: int)
    requires
        0 <= m <= n <= ps.len(),
    ensures
        parts_upto(ps, m).len() <= parts_upto(ps, n).len(),
        parts_upto(ps, n).take(parts_upto(ps, m).len() as int) == parts_upto(ps, m),
    decreases n,
{
    let a = parts_upto(ps, m);
    if m < n {
        lemma_parts_grow(ps, m, n - 1);
        match part_at(ps, n - 1) {
            Some(part) => {
                let b = parts_upto(ps, n - 1);
                assert(b.push(part).take(a.len() as int) =~= b.take(a.len() as int));
            },
            None => {},
        }
    } else {
        assert(a.take(a.len() as int) =~= a);
    }
}

/// What is left of a path without a directory has the parts that follow those of the directory.
pub proof fn law_without_base(path: Seq<char>, base: Seq<char>)
    ensures
        without_base(path, base) matches Some(rest) ==> components(path) == components(base)
            + components(rest),
        without_base(path, base) is None ==> forall|rest: Seq<Part>|
            components(path) != #[trigger] (components(base) + rest),
        without_base(path, base) is None ==> relative_to(path, base) == path,
        without_base(path, base) is Some ==> relative_to(path, base) == without_base(
            path,
            base,
        )->Some_0,
{
    let n = components(base).len() as int;
    let all = components(path);
    if without_base(path, base) is Some {
        lemma_after_parts(path, n);
        assert(all =~= all.take(n) + all.skip(n));
    } else {
        assert forall|rest: Seq<Part>| all != #[trigger] (components(base) + rest) by {
            if all == components(base) + rest {
                assert(all.take(n) =~= components(base));
            }
        }
    }
}

proof fn lemma_after_parts(path: Seq<char>, n: int)
    requires
        0 <= n <= components(path).len(),
    ensures
        components(after_parts(path, n)) == components(path).skip(n),
{
    reveal_strlit("/");
    reveal_strlit(".");
    assert("/"@ =~= seq!['/']);
    let ps = pieces(path);
    let m = ps.len() as int;
    let end = end_before(ps, m);
    let parts = parts_upto(ps, m);
    let absolute = is_absolute_path(path);
    lemma_split_where(path, only('/'));
    lemma_pieces_absolute(path);
    lemma_end_before(ps, m);
    let rest = after_parts(path, n);
    let none = Seq::<char>::empty();
    assert(pieces(none)[0].len() == 0 && pieces(none).len() == 1);
    assert(parts_upto(pieces(none), 0) =~= Seq::empty());
    assert(components(none) =~= Seq::empty());
    if n == 0 {
        if end == 0 {
            assert(parts_upto(ps, 0) =~= Seq::empty());
            if absolute {
                lemma_pieces_append(none, none);
                assert(none + seq!['/'] + none =~= seq!['/']);
                let two = pieces("/"@);
                assert(two[0].len() == 0 && two[1].len() == 0 && two.len() == 2);
                assert(parts_upto(two, 0) =~= Seq::empty());
                assert(parts_upto(two, 1) =~= Seq::empty());
                assert(parts_upto(two, 2) =~= Seq::empty());
                assert(components("/"@) =~= components(path).skip(0));
            } else {
                assert(rest =~= none);
                assert(components(path).skip(0) =~= Seq::empty());
            }
        } else {
            let qs = ps.take(end);
            assert forall|i: int, k: int|
                0 <= i < qs.len() && 0 <= k < #[trigger] qs[i].len() implies #[trigger] qs[i][k]
                != '/' by {
                assert(ps[i][k] == qs[i][k]);
            }
            lemma_pieces_joined(qs);
            lemma_pieces_absolute(rest);
            lemma_parts_prefix(qs, ps, end);
            assert(qs[0] == ps[0]);
            if absolute && end == 1 {
                assert(part_at(ps, 0) is None);
            }
            assert(components(rest) =~= components(path).skip(0));
        }
    } else {
        let skip = if absolute {
            n - 1
        } else {
            n
        };
        let start = start_after(ps, skip, 0);
        lemma_start_after(ps, skip, 0);
        assert(parts_upto(ps, 0) =~= Seq::empty());
        lemma_parts_grow(ps, start, m);
        if start < end {
            if start == 0 {
                assert(absolute);
                assert(part_at(ps, 0) is None);
            }
            let qs = ps.subrange(start, end);
            assert forall|i: int, k: int|
                0 <= i < qs.len() && 0 <= k < #[trigger] qs[i].len() implies #[trigger] qs[i][k]
                != '/' by {
                assert(ps[start + i][k] == qs[i][k]);
            }
            lemma_pieces_joined(qs);
            lemma_pieces_absolute(rest);
            assert(qs[0] == ps[start]);
            lemma_parts_from(ps, start, end - start);
            assert(parts.skip(skip) =~= parts_upto(qs, end - start));
            if absolute {
                assert(components(path).skip(n) =~= parts.skip(skip));
            }
            assert(components(rest) == parts_upto(qs, qs.len() as int));
        } else {
            lemma_parts_grow(ps, end, start);
            assert(parts_upto(ps, start).len() <= skip);
            assert(components(path).skip(n) =~= Seq::empty());
        }
    }
}

/// A path in a directory, without that directory, is the path itself up to how it is written.
pub proof fn law_join_and_strip(base: Seq<char>, path: Seq<char>)
    requires
        base.len() > 0,
        !is_absolute_path(path),
        components(path).len() > 0 ==> components(path)[0] != Part::Current,
    ensures
        same_path(relative_to(joined_path(base, path), base), path),
{
    let all = joined_path(base, path);
    law_joined_path(base, path);
    law_without_base(all, base);
    let a = components(base);
    let b = components(path);
    if without_base(all, base) is None {
        assert(components(all) != a + b);
    } else {
        let c = components(without_base(all, base)->Some_0);
        assert((a + b).skip(a.len() as int) =~= b);
        assert((a + c).skip(a.len() as int) =~= c);
    }
}

/// Paths stand in the order of the first parts in which they differ: the root first, then `.`, then
/// `..`, then names in dictionary order. A directory stands before what lies in it.
pub proof fn law_order_of_paths(
    a: Seq<char>,
    b: Seq<char>,
    common: Seq<Part>,
    x: Part,
    y: Part,
    more: Seq<Part>,
    rest: Seq<Part>,
)
    requires
        components(a) == common + (seq![x] + more),
        x != y,
    ensures
        components(b) == common ==> path_less(b, a) && !path_less(a, b),
        components(b) == common + (seq![y] + rest) ==> (path_less(a, b) <==> match (x, y) {
            (Part::Name(m), Part::Name(n)) => text_less(m, n),
            (Part::Name(_), _) => false,
            (_, Part::Name(_)) => true,
            (Part::Root, _) => true,
            (_, Part::Root) => false,
            (Part::Current, Part::Parent) => true,
            _ => false,
        }),
{
    let tail = seq![x] + more;
    let other = seq![y] + rest;
    assert(tail[0] == x && other[0] == y);
    crate::ordered::law_lexicographic(common, tail, other, part_order());
    let none = Seq::<Part>::empty();
    crate::ordered::law_lexicographic(common, none, tail, part_order());
    crate::ordered::law_lexicographic(common, tail, none, part_order());
    assert(common + none =~= common);
}

} // verus!
