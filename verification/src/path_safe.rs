//! Resolves a requested filename against a server root, refusing anything
//! that escapes: absolute paths, `..` components, NUL characters.
//!
//! Paths are texts whose components are separated by `/`.  Where the host has
//! other separators too, or prefixes such as drives, the program that opens
//! the file first tests the name by the rules of the host.  Symlinks are not
//! chased: the operator either deploys into a directory without outward
//! symlinks or runs the daemon under chroot.
use vstd::prelude::*;
use vstd::string::StringExecFns;

use crate::error::{Error, ErrorView};
use crate::proto::text::chars_of;

verus! {

/// The pieces between the `/` characters of a path.
pub open spec fn pieces(path: Seq<char>) -> Seq<Seq<char>>
    decreases path.len(),
{
    if path.len() == 0 {
        seq![Seq::empty()]
    } else {
        let before = pieces(path.drop_last());
        if path.last() == '/' {
            before.push(Seq::empty())
        } else {
            before.drop_last().push(before.last().push(path.last()))
        }
    }
}

/// Whether a piece names something: neither nothing nor the directory itself.
pub open spec fn is_name(piece: Seq<char>) -> bool {
    piece.len() > 0 && piece != seq!['.']
}

/// The pieces that name something.
pub open spec fn names_among(all: Seq<Seq<char>>) -> Seq<Seq<char>> {
    all.filter(|piece: Seq<char>| is_name(piece))
}

/// The components of a path, one for each step that it takes.
pub open spec fn components(path: Seq<char>) -> Seq<Seq<char>> {
    names_among(pieces(path))
}

/// The component that leads up.
pub open spec fn parent_dir() -> Seq<char> {
    seq!['.', '.']
}

/// Whether a requested filename is served at all: it is not empty, holds no
/// NUL, is not absolute, and no step of it leads up.
pub open spec fn is_served(requested: Seq<char>) -> bool {
    &&& requested.len() > 0
    &&& !requested.contains('\0')
    &&& requested[0] != '/'
    &&& !pieces(requested).contains(parent_dir())
}

/// `relative` below the directory `root`.
pub open spec fn below(root: Seq<char>, relative: Seq<char>) -> Seq<char> {
    if root.len() == 0 || root.last() == '/' {
        root + relative
    } else {
        root + seq!['/'] + relative
    }
}

/// The path of the requested file below `root`.
pub fn resolve(root: &str, requested: &str) -> (r: Result<String, Error>)
    ensures
        match r {
            Ok(path) => is_served(requested@) && path@ == below(root@, requested@),
            Err(e) => !is_served(requested@) && e@ == ErrorView::InvalidPath(requested@),
        },
{
    if !check_requested(requested) {
        return Err(Error::InvalidPath(requested.to_owned()));
    }
    let root_chars: Vec<char> = chars_of(root);
    let mut path: String = root.to_owned();
    if root_chars.len() > 0 && root_chars[root_chars.len() - 1] != '/' {
        proof {
            reveal_strlit("/");
            assert("/"@ =~= seq!['/']);
        }
        path.append("/");
    }
    path.append(requested);
    Ok(path)
}

/// Whether a requested filename is served at all.
fn check_requested(requested: &str) -> (served: bool)
    ensures
        served == is_served(requested@),
{
    let chars: Vec<char> = chars_of(requested);
    if chars.len() == 0 || chars[0] == '/' {
        return false;
    }
    let mut start: usize = 0;
    assert(pieces(chars@.take(0)).last() =~= chars@.subrange(0, 0));
    for i in 0..chars.len()
        invariant
            chars@ == requested@,
            start <= i,
            pieces(chars@.take(i as int)).len() > 0,
            pieces(chars@.take(i as int)).last() == chars@.subrange(start as int, i as int),
            !pieces(chars@.take(i as int)).drop_last().contains(parent_dir()),
            !chars@.take(i as int).contains('\0'),
    {
        let ghost before = pieces(chars@.take(i as int));
        let ghost now = pieces(chars@.take(i + 1));
        proof {
            assert(chars@.take(i + 1).drop_last() =~= chars@.take(i as int));
            assert(chars@.take(i + 1).last() == chars@[i as int]);
        }
        let c: char = chars[i];
        if c == '\0' {
            assert(requested@[i as int] == '\0');
            return false;
        }
        assert(!chars@.take(i + 1).contains('\0')) by {
            if chars@.take(i + 1).contains('\0') {
                let j = chars@.take(i + 1).index_of('\0');
                assert(chars@.take(i as int)[j] == '\0');
            }
        }
        if c == '/' {
            if is_parent_dir(&chars, start, i) {
                proof {
                    assert(now.drop_last() =~= before);
                    assert(now[before.len() - 1] == parent_dir());
                    pieces_of_prefix(chars@, i + 1);
                    assert(pieces(requested@)[before.len() - 1] == parent_dir());
                }
                return false;
            }
            proof {
                assert(now.drop_last() =~= before);
                assert(!now.drop_last().contains(parent_dir())) by {
                    if before.contains(parent_dir()) {
                        let j = before.index_of(parent_dir());
                        assert(before.drop_last()[j] == parent_dir());
                    }
                }
            }
            start = i + 1;
            assert(now.last() =~= chars@.subrange(start as int, i + 1));
        } else {
            proof {
                assert(now.drop_last() =~= before.drop_last());
                assert(now.last() =~= chars@.subrange(start as int, i + 1));
            }
        }
    }
    proof {
        assert(chars@.take(chars@.len() as int) =~= requested@);
        let all = pieces(requested@);
        if all.contains(parent_dir()) {
            let j = all.index_of(parent_dir());
            if j < all.len() - 1 {
                assert(all.drop_last()[j] == parent_dir());
            }
        } else {
            if all.last() == parent_dir() {
                assert(all[all.len() - 1] == parent_dir());
            }
        }
    }
    !is_parent_dir(&chars, start, chars.len())
}

fn is_parent_dir(chars: &Vec<char>, start: usize, end: usize) -> (r: bool)
    requires
        start <= end <= chars@.len(),
    ensures
        r == (chars@.subrange(start as int, end as int) == parent_dir()),
{
    let ghost piece = chars@.subrange(start as int, end as int);
    if end - start == 2 && chars[start] == '.' && chars[start + 1] == '.' {
        assert(piece =~= parent_dir());
        true
    } else {
        proof {
            if piece == parent_dir() {
                assert(piece.len() == 2);
                assert(piece[0] == '.' && piece[1] == '.');
            }
        }
        false
    }
}

/// All pieces of a prefix but the last are pieces of the whole path, in the
/// same places.
proof fn pieces_of_prefix(path: Seq<char>, n: int)
    requires
        0 <= n <= path.len(),
    ensures
        0 < pieces(path.take(n)).len() <= pieces(path).len(),
        forall|i: int|
            0 <= i < pieces(path.take(n)).len() - 1 ==> #[trigger] pieces(path.take(n))[i]
                == pieces(path)[i],
    decreases path.len() - n,
{
    pieces_not_empty(path.take(n));
    if n < path.len() {
        pieces_of_prefix(path, n + 1);
        assert(path.take(n + 1).drop_last() =~= path.take(n));
        let longer = pieces(path.take(n + 1));
        assert forall|i: int| 0 <= i < pieces(path.take(n)).len() - 1 implies #[trigger] pieces(
            path.take(n),
        )[i] == pieces(path)[i] by {
            assert(longer[i] == pieces(path.take(n))[i]);
        }
    } else {
        assert(path.take(n) =~= path);
    }
}

proof fn pieces_not_empty(path: Seq<char>)
    ensures
        pieces(path).len() > 0,
    decreases path.len(),
{
    if path.len() > 0 {
        pieces_not_empty(path.drop_last());
    }
}

/// The pieces of a path below another are the pieces of the two, one after
/// the other.
proof fn pieces_of_joined(a: Seq<char>, b: Seq<char>)
    ensures
        pieces(a + seq!['/'] + b) == pieces(a) + pieces(b),
    decreases b.len(),
{
    let joined = a + seq!['/'] + b;
    pieces_not_empty(b);
    if b.len() == 0 {
        assert(joined.drop_last() =~= a);
        assert(pieces(joined) =~= pieces(a) + pieces(b));
    } else {
        assert(joined.drop_last() =~= a + seq!['/'] + b.drop_last());
        pieces_of_joined(a, b.drop_last());
        pieces_not_empty(b.drop_last());
        assert(pieces(joined) =~= pieces(a) + pieces(b));
    }
}

proof fn names_among_pieces(a: Seq<Seq<char>>, b: Seq<Seq<char>>)
    ensures
        names_among(a + b) == names_among(a) + names_among(b),
{
    Seq::filter_distributes_over_add(a, b, |piece: Seq<char>| is_name(piece));
}

proof fn no_name_in_empty_piece(a: Seq<Seq<char>>)
    ensures
        names_among(a.push(Seq::empty())) == names_among(a),
{
    reveal(Seq::filter);
    assert(a.push(Seq::empty()).drop_last() =~= a);
}

/// A resolved path takes the steps of the root and then those of the request,
/// and none of the latter leads up: it stays below the root.
pub proof fn resolved_paths_stay_below_root(root: Seq<char>, requested: Seq<char>)
    requires
        is_served(requested),
    ensures
        components(below(root, requested)) == components(root) + components(requested),
        !components(requested).contains(parent_dir()),
        root.is_prefix_of(below(root, requested)),
{
    let path = below(root, requested);
    assert(root =~= path.take(root.len() as int));
    if root.len() == 0 {
        assert(path =~= requested);
        let nothing = Seq::<Seq<char>>::empty();
        assert(pieces(root) =~= nothing.push(Seq::empty()));
        no_name_in_empty_piece(nothing);
        assert(names_among(nothing) =~= nothing) by {
            reveal(Seq::filter);
        }
        assert(components(root) + components(requested) =~= components(requested));
    } else if root.last() == '/' {
        let dir = root.drop_last();
        assert(path =~= dir + seq!['/'] + requested);
        pieces_of_joined(dir, requested);
        names_among_pieces(pieces(dir), pieces(requested));
        no_name_in_empty_piece(pieces(dir));
    } else {
        pieces_of_joined(root, requested);
        names_among_pieces(pieces(root), pieces(requested));
    }
    if components(requested).contains(parent_dir()) {
        pieces(requested).lemma_filter_contains_rev(
            |piece: Seq<char>| is_name(piece),
            parent_dir(),
        );
    }
}

/// The last piece of a path is what stands behind its last `/`, or all of it
/// if it has none.
pub proof fn the_last_piece_is_behind_the_last_slash(path: Seq<char>)
    ensures
        ({
            let last = pieces(path).last();
            let start = path.len() - last.len();
            &&& start >= 0
            &&& last == path.skip(start)
            &&& start == 0 || path[start - 1] == '/'
            &&& forall|i: int| start <= i < path.len() ==> #[trigger] path[i] != '/'
        }),
    decreases path.len(),
{
    if path.len() > 0 {
        let front = path.drop_last();
        the_last_piece_is_behind_the_last_slash(front);
        pieces_not_empty(front);
        let start = front.len() - pieces(front).last().len();
        assert forall|i: int| 0 <= i < front.len() implies #[trigger] path[i] == front[i] by {}
        if path.last() != '/' {
            assert(pieces(path).last() =~= path.skip(start));
        } else {
            assert(pieces(path).last() =~= path.skip(path.len() as int));
        }
    } else {
        assert(pieces(path).last() =~= path.skip(0));
    }
}

/// Whether a step up stands at `i`: two dots with nothing but a `/` or an end
/// of the path on either side.
spec fn step_up_at(path: Seq<char>, i: int) -> bool {
    &&& 0 <= i && i + 2 <= path.len()
    &&& path[i] == '.' && path[i + 1] == '.'
    &&& i == 0 || path[i - 1] == '/'
    &&& i + 2 == path.len() || path[i + 2] == '/'
}

/// The last piece leads up just when a step up ends the path.
proof fn last_piece_leads_up(path: Seq<char>)
    ensures
        pieces(path).last() == parent_dir() <==> step_up_at(path, path.len() - 2),
{
    the_last_piece_is_behind_the_last_slash(path);
    let last = pieces(path).last();
    let start = path.len() - last.len();
    if step_up_at(path, path.len() - 2) {
        let i = path.len() - 2;
        if start < i {
            assert(path[i - 1] != '/');
        }
        if start > i {
            assert(path[start - 1] == '/');
        }
        assert(last =~= parent_dir());
    }
    if last == parent_dir() {
        assert(path[start] == last[0]);
        assert(path[start + 1] == last[1]);
    }
}

/// A piece before the last leads up just when a step up stands before a `/`.
proof fn other_piece_leads_up(path: Seq<char>)
    ensures
        pieces(path).drop_last().contains(parent_dir()) <==> exists|i: int|
            i + 2 < path.len() && #[trigger] step_up_at(path, i),
    decreases path.len(),
{
    pieces_not_empty(path);
    let all = pieces(path).drop_last();
    if path.len() > 0 {
        let front = path.drop_last();
        let before = pieces(front);
        pieces_not_empty(front);
        other_piece_leads_up(front);
        last_piece_leads_up(front);
        assert forall|i: int| i + 2 < front.len() implies (#[trigger] step_up_at(path, i)
            <==> step_up_at(front, i)) by {}
        if path.last() == '/' {
            assert(all =~= before);
            assert(step_up_at(path, front.len() - 2) <==> step_up_at(front, front.len() - 2));
            if before.contains(parent_dir()) {
                let k = before.index_of(parent_dir());
                if k < before.len() - 1 {
                    assert(before.drop_last()[k] == parent_dir());
                    let i = choose|i: int| i + 2 < front.len() && #[trigger] step_up_at(front, i);
                    assert(step_up_at(path, i));
                } else {
                    assert(step_up_at(path, front.len() - 2));
                }
            }
            if exists|i: int| i + 2 < path.len() && #[trigger] step_up_at(path, i) {
                let i = choose|i: int| i + 2 < path.len() && #[trigger] step_up_at(path, i);
                if i + 2 < front.len() {
                    assert(step_up_at(front, i));
                    let k = before.drop_last().index_of(parent_dir());
                    assert(before[k] == parent_dir());
                } else {
                    assert(before[before.len() - 1] == parent_dir());
                }
            }
        } else {
            assert(all =~= before.drop_last());
            if exists|i: int| i + 2 < path.len() && #[trigger] step_up_at(path, i) {
                let i = choose|i: int| i + 2 < path.len() && #[trigger] step_up_at(path, i);
                assert(path[i + 2] == '/');
                assert(step_up_at(front, i));
            }
            if exists|i: int| i + 2 < front.len() && #[trigger] step_up_at(front, i) {
                let i = choose|i: int| i + 2 < front.len() && #[trigger] step_up_at(front, i);
                assert(step_up_at(path, i));
            }
        }
    }
}

/// Which file names are served, character by character: those that are not
/// empty, start with no `/`, hold no NUL, and hold no `..` that stands
/// between two `/`, at the start before one, at the end behind one, or alone.
pub proof fn names_are_served_by_their_characters(name: Seq<char>)
    ensures
        is_served(name) <==> {
            &&& name.len() > 0
            &&& name[0] != '/'
            &&& forall|i: int| 0 <= i < name.len() ==> #[trigger] name[i] != '\0'
            &&& !exists|i: int|
                #![trigger name[i]]
                0 <= i && i + 2 <= name.len() && name[i] == '.' && name[i + 1] == '.' && (i == 0
                    || name[i - 1] == '/') && (i + 2 == name.len() || name[i + 2] == '/')
        },
{
    let all = pieces(name);
    pieces_not_empty(name);
    last_piece_leads_up(name);
    other_piece_leads_up(name);
    if all.contains(parent_dir()) {
        let k = all.index_of(parent_dir());
        if k < all.len() - 1 {
            assert(all.drop_last()[k] == parent_dir());
            let i = choose|i: int| i + 2 < name.len() && #[trigger] step_up_at(name, i);
            assert(name[i] == '.');
        } else {
            assert(name[name.len() - 2] == '.');
        }
    }
    if exists|i: int|
        #![trigger name[i]]
        0 <= i && i + 2 <= name.len() && name[i] == '.' && name[i + 1] == '.' && (i == 0 || name[i
            - 1] == '/') && (i + 2 == name.len() || name[i + 2] == '/') {
        let i = choose|i: int|
            #![trigger name[i]]
            0 <= i && i + 2 <= name.len() && name[i] == '.' && name[i + 1] == '.' && (i == 0
                || name[i - 1] == '/') && (i + 2 == name.len() || name[i + 2] == '/');
        assert(step_up_at(name, i));
        if i + 2 < name.len() {
            let k = all.drop_last().index_of(parent_dir());
            assert(all[k] == parent_dir());
        } else {
            assert(all[all.len() - 1] == parent_dir());
        }
    }
}

/// A path below a directory is the directory, one `/` where there is need of
/// it, and the relative path.
pub proof fn paths_below_join_the_two(root: Seq<char>, relative: Seq<char>)
    ensures
        ({
            let path = below(root, relative);
            let start = path.len() - relative.len();
            &&& root.is_prefix_of(path)
            &&& path.skip(start) == relative
            &&& root.len() == 0 || root.last() == '/' ==> start == root.len()
            &&& root.len() > 0 && root.last() != '/' ==> start == root.len() + 1
                && path[root.len() as int] == '/'
        }),
{
    let path = below(root, relative);
    assert(root =~= path.take(root.len() as int));
    assert(path.skip(path.len() - relative.len()) =~= relative);
}

} // verus!
