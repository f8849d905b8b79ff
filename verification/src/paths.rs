//! Path text helpers: the file-name component of a script path, and
//! byte-vector building blocks shared by the launch and kind modules.

use vstd::prelude::*;

verus! {

/// The file-name component of a path: the bytes after the last `/`
/// separator, the whole path if it has none, empty if the path ends in a
/// separator.
pub open spec fn file_name(path: Seq<u8>) -> Seq<u8>
    decreases path.len(),
{
    if path.len() == 0 {
        path
    } else if path.last() == 47 {
        Seq::empty()
    } else {
        file_name(path.drop_last()).push(path.last())
    }
}

pub proof fn lemma_file_name_suffix(path: Seq<u8>, cut: int)
    requires
        0 <= cut <= path.len(),
        cut > 0 ==> path[cut - 1] == 47,
        forall|k: int| cut <= k < path.len() ==> path[k] != 47,
    ensures
        file_name(path) =~= path.skip(cut),
    decreases path.len(),
{
    if path.len() == cut {
        if cut == 0 {
            assert(path.skip(0) =~= path);
        } else {
            assert(path.last() == 47);
            assert(path.skip(cut) =~= Seq::<u8>::empty());
        }
    } else {
        assert(path.last() != 47);
        let d = path.drop_last();
        assert(forall|k: int| cut <= k < d.len() ==> d[k] == path[k]);
        lemma_file_name_suffix(d, cut);
        assert(d.skip(cut).push(path.last()) =~= path.skip(cut));
    }
}

/// Extracts the file-name component of `path`.
pub fn file_name_bytes(path: &Vec<u8>) -> (r: Vec<u8>)
    ensures
        r@ == file_name(path@),
{
    let n = path.len();
    let mut cut: usize = n;
    while cut > 0 && path[cut - 1] != 47
        invariant
            cut <= n,
            n == path@.len(),
            forall|k: int| cut <= k < n ==> path@[k] != 47,
        decreases cut,
    {
        cut = cut - 1;
    }
    let mut out: Vec<u8> = Vec::new();
    let mut i = cut;
    while i < n
        invariant
            cut <= i <= n,
            n == path@.len(),
            out@ == path@.subrange(cut as int, i as int),
        decreases n - i,
    {
        out.push(path[i]);
        proof {
            assert(out@ =~= path@.subrange(cut as int, i + 1 as int));
        }
        i = i + 1;
    }
    proof {
        lemma_file_name_suffix(path@, cut as int);
        assert(path@.skip(cut as int) =~= path@.subrange(cut as int, n as int));
    }
    out
}

/// Appends all of `src` to `dst`.
pub fn append_bytes(dst: &mut Vec<u8>, src: &Vec<u8>)
    ensures
        final(dst)@ == old(dst)@ + src@,
{
    let mut i: usize = 0;
    while i < src.len()
        invariant
            i <= src@.len(),
            dst@ == old(dst)@ + src@.take(i as int),
        decreases src@.len() - i,
    {
        dst.push(src[i]);
        proof {
            assert(dst@ =~= old(dst)@ + src@.take(i + 1 as int));
        }
        i = i + 1;
    }
    proof {
        assert(old(dst)@ + src@.take(src@.len() as int) =~= old(dst)@ + src@);
    }
}

/// A fresh copy of `src`.
pub fn copy_bytes(src: &Vec<u8>) -> (r: Vec<u8>)
    ensures
        r@ == src@,
{
    let mut out: Vec<u8> = Vec::new();
    append_bytes(&mut out, src);
    proof {
        assert(Seq::<u8>::empty() + src@ =~= src@);
    }
    out
}

} // verus!
