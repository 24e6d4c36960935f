use vstd::prelude::*;

use crate::file_info::FileInfo;
use crate::file_info::FileInfoView;
use crate::filename::str_eq;

verus! {

/// The abstract value of a file hierarchy node.
pub struct FsEntryView {
    pub info: FileInfoView,
    pub content: Seq<u8>,
    pub children: Seq<FsEntryView>,
}

/// One node of an in-memory file hierarchy: a file with its content, or
/// a folder with its children.  This is the model both storage backends
/// are measured against.
#[derive(Debug)]
pub struct FsEntry {
    pub info: FileInfo,
    pub content: Vec<u8>,
    pub children: Vec<FsEntry>,
}

/// The abstract value of an entry.
pub open spec fn view_of(e: FsEntry) -> FsEntryView
    decreases e,
{
    FsEntryView {
        info: e.info@,
        content: e.content@,
        children: views_upto(e.children@, e.children@.len() as int),
    }
}

/// The abstract values of the first `n` entries.
pub open spec fn views_upto(s: Seq<FsEntry>, n: int) -> Seq<FsEntryView>
    decreases s, n,
{
    if n <= 0 || n > s.len() {
        Seq::empty()
    } else {
        views_upto(s, n - 1).push(view_of(s[n - 1]))
    }
}

/// The abstract values of a sequence of entries.
pub open spec fn views(s: Seq<FsEntry>) -> Seq<FsEntryView> {
    views_upto(s, s.len() as int)
}

/// `views_upto(s, n)` lists the views of the first `n` entries, in order.
pub proof fn lemma_views_upto(s: Seq<FsEntry>, n: int)
    requires
        0 <= n <= s.len(),
    ensures
        views_upto(s, n).len() == n,
        forall|i: int| 0 <= i < n ==> views_upto(s, n)[i] == view_of(s[i]),
    decreases n,
{
    if n > 0 {
        lemma_views_upto(s, n - 1);
    }
}

/// `views` is the pointwise image of `view_of`.
pub proof fn lemma_views(s: Seq<FsEntry>)
    ensures
        views(s).len() == s.len(),
        forall|i: int| 0 <= i < s.len() ==> views(s)[i] == view_of(s[i]),
{
    lemma_views_upto(s, s.len() as int);
}

/// Index of the first entry with the given name, or -1.
pub open spec fn spec_find_index(entries: Seq<FsEntryView>, name: Seq<char>) -> int
    decreases entries.len(),
{
    if entries.len() == 0 {
        -1
    } else if entries[0].info.name == name {
        0
    } else {
        let r = spec_find_index(entries.skip(1), name);
        if r < 0 {
            -1
        } else {
            r + 1
        }
    }
}

pub proof fn lemma_find_index(entries: Seq<FsEntryView>, name: Seq<char>)
    ensures
        spec_find_index(entries, name) >= 0 ==> spec_find_index(entries, name) < entries.len()
            && entries[spec_find_index(entries, name)].info.name == name && forall|j: int|
            0 <= j < spec_find_index(entries, name) ==> entries[j].info.name != name,
        spec_find_index(entries, name) < 0 ==> forall|j: int|
            0 <= j < entries.len() ==> entries[j].info.name != name,
    decreases entries.len(),
{
    if entries.len() == 0 {
    } else if entries[0].info.name == name {
    } else {
        lemma_find_index(entries.skip(1), name);
        let r = spec_find_index(entries.skip(1), name);
        if r >= 0 {
            assert(entries.skip(1)[r] == entries[r + 1]);
            assert forall|j: int| 0 <= j < r + 1 implies entries[j].info.name != name by {
                if j > 0 {
                    assert(entries[j] == entries.skip(1)[j - 1]);
                }
            }
        } else {
            assert forall|j: int| 0 <= j < entries.len() implies entries[j].info.name != name by {
                if j > 0 {
                    assert(entries[j] == entries.skip(1)[j - 1]);
                }
            }
        }
    }
}

/// Finds the first entry with the given name.
pub fn find_entry(entries: &Vec<FsEntry>, name: &str) -> (r: Option<usize>)
    ensures
        match r {
            Some(i) => i == spec_find_index(views(entries@), name@) && i < entries@.len(),
            None => spec_find_index(views(entries@), name@) < 0,
        },
{
    proof {
        lemma_views(entries@);
        lemma_find_index(views(entries@), name@);
    }
    let n = entries.len();
    for i in 0..n
        invariant
            n == entries@.len(),
            views(entries@).len() == n,
            forall|j: int| 0 <= j < n ==> views(entries@)[j] == view_of(entries@[j]),
            forall|j: int| 0 <= j < i ==> views(entries@)[j].info.name != name@,
            spec_find_index(views(entries@), name@) >= 0 ==> spec_find_index(
                views(entries@),
                name@,
            ) < n && views(entries@)[spec_find_index(views(entries@), name@)].info.name == name@,
            spec_find_index(views(entries@), name@) >= 0 ==> forall|j: int|
                0 <= j < spec_find_index(views(entries@), name@) ==> views(entries@)[j].info.name
                    != name@,
            spec_find_index(views(entries@), name@) < 0 ==> forall|j: int|
                0 <= j < n ==> views(entries@)[j].info.name != name@,
    {
        if str_eq(entries[i].info.name.as_str(), name) {
            proof {
                let k = spec_find_index(views(entries@), name@);
                assert(views(entries@)[i as int].info.name == name@);
                if k < 0 {
                    assert(false);
                }
                if k < i {
                    assert(false);
                }
                if k > i {
                    assert(false);
                }
            }
            return Some(i);
        }
    }
    proof {
        let k = spec_find_index(views(entries@), name@);
        if k >= 0 {
            assert(views(entries@)[k].info.name == name@);
            assert(false);
        }
    }
    None
}

/// Pushing an entry extends the views by its view.
pub proof fn lemma_views_push(s: Seq<FsEntry>, x: FsEntry)
    ensures
        views(s.push(x)) =~= views(s).push(view_of(x)),
{
    lemma_views(s);
    lemma_views(s.push(x));
    assert(forall|i: int| 0 <= i < s.len() ==> s.push(x)[i] == s[i]);
    assert(s.push(x)[s.len() as int] == x);
}

/// Copies a byte vector.
pub fn copy_bytes(src: &Vec<u8>) -> (r: Vec<u8>)
    ensures
        r@ == src@,
{
    let mut out: Vec<u8> = Vec::new();
    let n = src.len();
    for i in 0..n
        invariant
            n == src@.len(),
            out@ =~= src@.take(i as int),
    {
        out.push(src[i]);
        proof {
            assert(out@ =~= src@.take(i + 1));
        }
    }
    proof {
        assert(src@.take(n as int) =~= src@);
    }
    out
}

} // verus!
