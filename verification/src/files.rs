//! File-name handling on the client: the name a file is stored under
//! is the last component of the path the user gave.

use vstd::prelude::*;

use vstd::slice::{slice_subrange, slice_to_vec};

verus! {

/// The bytes after the last path separator: the empty sequence for an
/// empty path or one that ends in a separator.
pub open spec fn spec_filename_of(path: Seq<u8>) -> Seq<u8>
    decreases path.len(),
{
    if path.len() == 0 {
        Seq::empty()
    } else if path.last() == 47 {
        Seq::empty()
    } else {
        spec_filename_of(path.drop_last()).push(path.last())
    }
}

/// The suffix that follows the last separator is the filename.
pub proof fn lemma_filename_suffix(path: Seq<u8>, i: int)
    requires
        0 <= i <= path.len(),
        forall|j: int| i <= j < path.len() ==> path[j] != 47,
        i > 0 ==> path[i - 1] == 47,
    ensures
        spec_filename_of(path) == path.subrange(i, path.len() as int),
    decreases path.len(),
{
    if path.len() == i {
        assert(path.subrange(i, path.len() as int) =~= Seq::<u8>::empty());
        if i > 0 {
            assert(path.last() == 47);
        }
    } else {
        assert(path.last() != 47);
        let shorter = path.drop_last();
        lemma_filename_suffix(shorter, i);
        assert(path.subrange(i, path.len() as int) =~= shorter.subrange(
            i,
            shorter.len() as int,
        ).push(path.last()));
    }
}

/// The last path component of `filepath`: everything after the final
/// `/`, or the whole path when it has none.
pub fn get_filename(filepath: &Vec<u8>) -> (r: Vec<u8>)
    ensures
        r@ == spec_filename_of(filepath@),
{
    let n = filepath.len();
    let mut start: usize = n;
    while start > 0 && filepath[start - 1] != 47
        invariant
            n == filepath@.len(),
            0 <= start <= n,
            forall|j: int| start <= j < n ==> filepath@[j] != 47,
        decreases start,
    {
        start -= 1;
    }
    proof {
        lemma_filename_suffix(filepath@, start as int);
    }
    slice_to_vec(slice_subrange(filepath.as_slice(), start, n))
}

} // verus!
