//! File paths, compared by their components.
use crate::text::{same, split, split_on, texts};
use vstd::prelude::*;

verus! {

/// The pieces that name something: neither empty nor a single dot.
pub open spec fn named(pieces: Seq<Seq<char>>) -> Seq<Seq<char>>
    decreases pieces.len(),
{
    if pieces.len() == 0 {
        pieces
    } else if pieces.last().len() == 0 || pieces.last() == "."@ {
        named(pieces.drop_last())
    } else {
        named(pieces.drop_last()).push(pieces.last())
    }
}

/// What a path starts from: the root, the current directory where it says so,
/// or nothing.
pub open spec fn origin(path: Seq<char>) -> Seq<Seq<char>> {
    if path.len() > 0 && path[0] == '/' {
        seq!["/"@]
    } else if split(path, '/')[0] == "."@ {
        seq!["."@]
    } else {
        Seq::empty()
    }
}

/// The components of a path.  Repeated and trailing slashes and dots inside the
/// path make none.
pub open spec fn components(path: Seq<char>) -> Seq<Seq<char>> {
    origin(path) + named(split(path, '/'))
}

pub open spec fn same_path(a: Seq<char>, b: Seq<char>) -> bool {
    components(a) == components(b)
}

/// Whether a path is a directory or lies below it.
pub open spec fn path_within(path: Seq<char>, root: Seq<char>) -> bool {
    components(root).is_prefix_of(components(path))
}

/// The last component, where it is the name of something.
pub open spec fn file_name(path: Seq<char>) -> Option<Seq<char>> {
    let parts = components(path);
    if parts.len() == 0 || parts.last() == "/"@ || parts.last() == "."@ || parts.last() == ".."@ {
        None
    } else {
        Some(parts.last())
    }
}

fn components_of(path: &str) -> (r: Vec<String>)
    ensures
        texts(r@) == components(path@),
{
    let pieces = split_on(path, '/');
    let mut parts: Vec<String> = Vec::new();
    proof {
        crate::text::lemma_split_nonempty(path@, crate::text::either('/', '/'));
        assert(texts(pieces@)[0] == pieces@[0]@);
        reveal_strlit("/");
    }
    if crate::text::has_prefix(path, "/") {
        assert(path@[0] == path@.take(1)[0]);
        parts.push("/".to_owned());
    } else {
        assert(path@.len() > 0 && path@[0] == '/' ==> path@.take(1) =~= "/"@);
        if same(pieces[0].as_str(), ".") {
            parts.push(".".to_owned());
        }
    }
    assert(texts(parts@) == origin(path@));
    let mut i: usize = 0;
    assert(texts(pieces@).take(0).len() == 0);
    while i < pieces.len()
        invariant
            i <= pieces@.len(),
            texts(pieces@) == split(path@, '/'),
            texts(parts@) == origin(path@) + named(texts(pieces@).take(i as int)),
        decreases pieces@.len() - i,
    {
        let ghost before = texts(parts@);
        let piece = pieces[i].as_str();
        proof {
            let next = texts(pieces@).take(i + 1);
            assert(next.drop_last() == texts(pieces@).take(i as int));
            assert(next.last() == piece@);
        }
        if !piece.is_empty() && !same(piece, ".") {
            parts.push(piece.to_owned());
            assert(texts(parts@) == before.push(piece@));
        }
        i += 1;
    }
    assert(texts(pieces@).take(i as int) == texts(pieces@));
    parts
}

pub(crate) fn is_same_path(a: &str, b: &str) -> (r: bool)
    ensures
        r == same_path(a@, b@),
{
    proof {
        if path_within(a@, b@) && path_within(b@, a@) {
            assert(components(a@) =~= components(b@));
        }
    }
    is_within(a, b) && is_within(b, a)
}

pub(crate) fn is_within(path: &str, root: &str) -> (r: bool)
    ensures
        r == path_within(path@, root@),
{
    let parts = components_of(path);
    let start = components_of(root);
    if start.len() > parts.len() {
        return false;
    }
    let mut i: usize = 0;
    while i < start.len()
        invariant
            i <= start@.len() <= parts@.len(),
            texts(parts@) == components(path@),
            texts(start@) == components(root@),
            forall|j: int| 0 <= j < i ==> texts(start@)[j] == texts(parts@)[j],
        decreases start@.len() - i,
    {
        assert(texts(start@)[i as int] == start@[i as int]@);
        assert(texts(parts@)[i as int] == parts@[i as int]@);
        if !same(start[i].as_str(), parts[i].as_str()) {
            return false;
        }
        i += 1;
    }
    true
}

pub(crate) fn file_name_is(path: &str, name: &str) -> (r: bool)
    ensures
        r == (file_name(path@) == Some(name@)),
{
    let parts = components_of(path);
    if parts.len() == 0 {
        return false;
    }
    let last = parts[parts.len() - 1].as_str();
    assert(texts(parts@).last() == last@);
    !same(last, "/") && !same(last, ".") && !same(last, "..") && same(last, name)
}

} // verus!
