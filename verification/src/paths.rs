//! File system paths as byte strings, with `/` between their components.

use vstd::prelude::*;
use vstd::slice::{slice_subrange, slice_to_vec};

use crate::host::contents;
use crate::text::{lemma_until, pieces};

verus! {

/// The byte between two components.
pub const SLASH: u8 = 0x2f;

/// The byte of the component that names the directory itself.
pub const DOT: u8 = 0x2e;

/// Whether `path` starts at the root.
pub open spec fn rooted(path: Seq<u8>) -> bool {
    path.len() > 0 && path[0] == SLASH
}

/// The path of `name` in `dir`. A `name` that starts at the root stands for itself.
pub open spec fn joined(dir: Seq<u8>, name: Seq<u8>) -> Seq<u8> {
    if rooted(name) {
        name
    } else if dir.len() == 0 || dir.last() == SLASH {
        dir + name
    } else {
        dir.push(SLASH) + name
    }
}

/// Whether a piece between slashes names a component: empty pieces and `.` do not.
pub open spec fn is_segment(piece: Seq<u8>) -> bool {
    piece.len() > 0 && piece != seq![DOT]
}

/// The components of `path`, in order.
pub open spec fn segments(path: Seq<u8>) -> Seq<Seq<u8>> {
    pieces(path, SLASH).filter(|piece: Seq<u8>| is_segment(piece))
}

/// Whether a path begins with the component `.`, which is kept there.
pub open spec fn dotted(path: Seq<u8>) -> bool {
    !rooted(path) && pieces(path, SLASH)[0] == seq![DOT]
}

/// Whether the two paths have the same components: extra slashes, and `.` after
/// the first place, make no difference.
pub open spec fn same_path(a: Seq<u8>, b: Seq<u8>) -> bool {
    &&& rooted(a) == rooted(b)
    &&& dotted(a) == dotted(b)
    &&& segments(a) == segments(b)
}

/// The last component of `path`; nothing if there is none or if it is `..`.
pub open spec fn last_name(path: Seq<u8>) -> Seq<u8> {
    let names = segments(path);
    if names.len() == 0 || names.last() == seq![DOT, DOT] {
        Seq::empty()
    } else {
        names.last()
    }
}

/// Whether the two byte strings are equal.
pub fn same_bytes(a: &[u8], b: &[u8]) -> (r: bool)
    ensures
        r == (a@ == b@),
{
    if a.len() != b.len() {
        return false;
    }
    let mut i: usize = 0;
    while i < a.len()
        invariant
            i <= a@.len(),
            a@.len() == b@.len(),
            forall|j: int| 0 <= j < i ==> a@[j] == b@[j],
        decreases a@.len() - i,
    {
        if a[i] != b[i] {
            return false;
        }
        i = i + 1;
    }
    assert(a@ =~= b@);
    true
}

/// A copy of `bytes`.
pub fn copied(bytes: &Vec<u8>) -> (r: Vec<u8>)
    ensures
        r@ == bytes@,
{
    slice_to_vec(bytes.as_slice())
}

/// The path of `name` in `dir`. A `name` that starts at the root stands for itself.
pub fn join_path(dir: &[u8], name: &[u8]) -> (r: Vec<u8>)
    ensures
        r@ == joined(dir@, name@),
{
    if name.len() > 0 && name[0] == SLASH {
        return slice_to_vec(name);
    }
    let mut r: Vec<u8> = slice_to_vec(dir);
    if r.len() > 0 && r[r.len() - 1] != SLASH {
        r.push(SLASH);
    }
    let ghost head = r@;
    let mut i: usize = 0;
    while i < name.len()
        invariant
            i <= name@.len(),
            r@ == head + name@.take(i as int),
        decreases name@.len() - i,
    {
        r.push(name[i]);
        i = i + 1;
    }
    assert(name@.take(i as int) =~= name@);
    r
}

fn split_path(path: &[u8]) -> (r: Vec<Vec<u8>>)
    ensures
        contents(r@) == pieces(path@, SLASH),
        r@.len() > 0,
{
    let mut r: Vec<Vec<u8>> = Vec::new();
    let mut start: usize = 0;
    let mut i: usize = 0;
    assert(path@.skip(0) =~= path@);
    assert(contents(r@) + pieces(path@, SLASH) =~= pieces(path@, SLASH));
    while i < path.len()
        invariant
            start <= i <= path@.len(),
            path@.len() == path.len(),
            forall|j: int| start <= j < i ==> path@[j] != SLASH,
            contents(r@) + pieces(path@.skip(start as int), SLASH) == pieces(path@, SLASH),
        decreases path@.len() - i,
    {
        if path[i] == SLASH {
            let ghost rest = path@.skip(start as int);
            let ghost before = contents(r@);
            proof {
                lemma_until(rest, SLASH, i - start);
                assert(rest.take(i - start) =~= path@.subrange(start as int, i as int));
                assert(rest.skip(i - start + 1) =~= path@.skip(i + 1));
            }
            r.push(slice_to_vec(slice_subrange(path, start, i)));
            start = i + 1;
            assert(contents(r@) + pieces(path@.skip(start as int), SLASH) =~= before + pieces(
                rest,
                SLASH,
            ));
        }
        i = i + 1;
    }
    let ghost rest = path@.skip(start as int);
    let ghost before = contents(r@);
    proof {
        lemma_until(rest, SLASH, rest.len() as int);
        assert(rest =~= path@.subrange(start as int, path@.len() as int));
    }
    r.push(slice_to_vec(slice_subrange(path, start, path.len())));
    assert(contents(r@) =~= before + pieces(rest, SLASH));
    r
}

fn segments_of(path: &[u8]) -> (r: Vec<Vec<u8>>)
    ensures
        contents(r@) == segments(path@),
{
    let all: Vec<Vec<u8>> = split_path(path);
    let ghost keep = |piece: Seq<u8>| is_segment(piece);
    let mut r: Vec<Vec<u8>> = Vec::new();
    let dot: [u8; 1] = [DOT];
    let mut i: usize = 0;
    assert(contents(all@).take(0).filter(keep) =~= Seq::<Seq<u8>>::empty()) by {
        reveal(Seq::filter);
    }
    assert(contents(r@) =~= Seq::<Seq<u8>>::empty());
    while i < all.len()
        invariant
            i <= all@.len(),
            dot@ == seq![DOT],
            keep == (|piece: Seq<u8>| is_segment(piece)),
            contents(r@) == contents(all@).take(i as int).filter(keep),
        decreases all@.len() - i,
    {
        let ghost before = contents(r@);
        proof {
            assert(contents(all@).take(i + 1) =~= contents(all@).take(i as int).push(
                contents(all@)[i as int],
            ));
            contents(all@).take(i as int).lemma_filter_push(contents(all@)[i as int], keep);
        }
        if all[i].len() > 0 && !same_bytes(all[i].as_slice(), dot.as_slice()) {
            r.push(copied(&all[i]));
            assert(contents(r@) =~= before.push(all@[i as int]@));
        }
        i = i + 1;
    }
    assert(contents(all@).take(i as int) =~= contents(all@));
    r
}

fn same_lists(a: &Vec<Vec<u8>>, b: &Vec<Vec<u8>>) -> (r: bool)
    ensures
        r == (contents(a@) == contents(b@)),
{
    if a.len() != b.len() {
        assert(contents(a@).len() != contents(b@).len());
        return false;
    }
    let mut i: usize = 0;
    while i < a.len()
        invariant
            i <= a@.len(),
            a@.len() == b@.len(),
            forall|j: int| 0 <= j < i ==> a@[j]@ == b@[j]@,
        decreases a@.len() - i,
    {
        if !same_bytes(a[i].as_slice(), b[i].as_slice()) {
            assert(contents(a@)[i as int] != contents(b@)[i as int]);
            return false;
        }
        i = i + 1;
    }
    assert(contents(a@) =~= contents(b@));
    true
}

fn begins_with_dot(path: &[u8]) -> (r: bool)
    ensures
        r == dotted(path@),
{
    let all: Vec<Vec<u8>> = split_path(path);
    let dot: [u8; 1] = [DOT];
    assert(dot@ =~= seq![DOT]);
    assert(contents(all@)[0] == all@[0]@);
    !(path.len() > 0 && path[0] == SLASH) && same_bytes(all[0].as_slice(), dot.as_slice())
}

/// Whether the two paths have the same components.
pub fn paths_equal(a: &[u8], b: &[u8]) -> (r: bool)
    ensures
        r == same_path(a@, b@),
{
    let root_a: bool = a.len() > 0 && a[0] == SLASH;
    let root_b: bool = b.len() > 0 && b[0] == SLASH;
    root_a == root_b && begins_with_dot(a) == begins_with_dot(b) && same_lists(
        &segments_of(a),
        &segments_of(b),
    )
}

/// The last component of `path`; nothing if there is none or if it is `..`.
pub fn file_name(path: &[u8]) -> (r: Vec<u8>)
    ensures
        r@ == last_name(path@),
{
    let names: Vec<Vec<u8>> = segments_of(path);
    let up: [u8; 2] = [DOT, DOT];
    assert(up@ =~= seq![DOT, DOT]);
    assert(contents(names@).len() == names@.len());
    if names.len() == 0 || same_bytes(names[names.len() - 1].as_slice(), up.as_slice()) {
        Vec::new()
    } else {
        copied(&names[names.len() - 1])
    }
}

} // verus!
