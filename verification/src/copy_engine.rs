use vstd::prelude::*;

use crate::errors::AppError;
use crate::errors::ErrorKind;
use crate::file_info::FileInfo;
use crate::file_info::FileInfoView;
use crate::file_info::can_skip_copying;
use crate::file_info::spec_can_skip;
use crate::filename::str_eq;
use crate::fs_model::FsEntry;
use crate::fs_model::FsEntryView;
use crate::fs_model::copy_bytes;
use crate::fs_model::find_entry;
use crate::fs_model::lemma_find_index;
use crate::fs_model::lemma_views_push;
use crate::fs_model::lemma_views;
use crate::fs_model::spec_find_index;
use crate::fs_model::view_of;
use crate::fs_model::views;

verus! {

/// The destination entry a copied file leaves behind: the source's
/// content and times under the destination name, visible, deletable,
/// with the size the backend then reports.
pub open spec fn file_entry_of(src: FsEntryView, name: Seq<char>) -> FsEntryView {
    FsEntryView {
        info: FileInfoView {
            name,
            data_size: Some(src.content.len() as u64),
            is_folder: false,
            is_hidden: false,
            is_system: false,
            can_delete: true,
            time_created: src.info.time_created,
            time_modified: src.info.time_modified,
        },
        content: src.content,
        children: Seq::empty(),
    }
}

/// A freshly created, empty destination folder.
pub open spec fn folder_entry_named(name: Seq<char>) -> FsEntryView {
    FsEntryView {
        info: FileInfoView {
            name,
            data_size: None,
            is_folder: true,
            is_hidden: false,
            is_system: false,
            can_delete: true,
            time_created: None,
            time_modified: None,
        },
        content: Seq::empty(),
        children: Seq::empty(),
    }
}

/// Whether a mirroring pass leaves a destination entry in place: entries
/// retained during the walk survive, and hidden or system entries are
/// never deletion candidates.
pub open spec fn keep_at_mirror(e: FsEntryView, retained: Seq<Seq<char>>) -> bool {
    e.info.is_hidden || e.info.is_system || retained.contains(e.info.name)
}

/// The destination entries that survive a mirroring pass, in order.
pub open spec fn mirror_retained(entries: Seq<FsEntryView>, retained: Seq<Seq<char>>) -> Seq<
    FsEntryView,
>
    decreases entries.len(),
{
    if entries.len() == 0 {
        Seq::empty()
    } else if keep_at_mirror(entries[0], retained) {
        seq![entries[0]] + mirror_retained(entries.skip(1), retained)
    } else {
        mirror_retained(entries.skip(1), retained)
    }
}

/// What copying one source entry under `dest_name` into a destination
/// folder leaves there, and whether the name counts as retained:
/// hidden and system sources are silently skipped; a file is skipped
/// when the destination looks at least as fresh, else replaced or
/// created; a folder is opened or created, its children copied when
/// `recursive`, and, when `mirror`, unretained visible children of the
/// destination folder are deleted afterwards.  The error is an existing
/// non-folder destination entry where a folder must be opened.
pub open spec fn spec_copy_entry(
    src: FsEntryView,
    dest: Seq<FsEntryView>,
    dest_name: Seq<char>,
    recursive: bool,
    mirror: bool,
) -> Result<(Seq<FsEntryView>, bool), ()>
    decreases src,
{
    if src.info.is_hidden || src.info.is_system {
        Ok((dest, false))
    } else if !src.info.is_folder {
        let i = spec_find_index(dest, dest_name);
        if i >= 0 && spec_can_skip(src.info, dest[i].info) {
            Ok((dest, true))
        } else {
            let e = file_entry_of(src, dest_name);
            if i >= 0 {
                Ok((dest.update(i, e), true))
            } else {
                Ok((dest.push(e), true))
            }
        }
    } else {
        let i = spec_find_index(dest, dest_name);
        if i >= 0 && !dest[i].info.is_folder {
            Err(())
        } else {
            let child0 = if i >= 0 {
                dest[i]
            } else {
                folder_entry_named(dest_name)
            };
            let child1_result = if recursive {
                match spec_copy_children(
                    src.children,
                    child0.children,
                    src.children.len() as int,
                    recursive,
                    mirror,
                ) {
                    Err(e) => Err(e),
                    Ok((cc, ret)) => {
                        let cc2 = if mirror {
                            mirror_retained(cc, ret)
                        } else {
                            cc
                        };
                        Ok(FsEntryView { info: child0.info, content: child0.content, children: cc2 })
                    },
                }
            } else {
                Ok(child0)
            };
            match child1_result {
                Err(e) => Err(e),
                Ok(child1) => if i >= 0 {
                    Ok((dest.update(i, child1), true))
                } else {
                    Ok((dest.push(child1), true))
                },
            }
        }
    }
}

/// What copying the first `n` source children, each under its own name,
/// leaves in the destination folder, with the names retained so far.
pub open spec fn spec_copy_children(
    children: Seq<FsEntryView>,
    dest: Seq<FsEntryView>,
    n: int,
    recursive: bool,
    mirror: bool,
) -> Result<(Seq<FsEntryView>, Seq<Seq<char>>), ()>
    decreases children, n,
{
    if n <= 0 || n > children.len() {
        Ok((dest, Seq::empty()))
    } else {
        match spec_copy_children(children, dest, n - 1, recursive, mirror) {
            Err(e) => Err(e),
            Ok((d, ret)) => {
                let c = children[n - 1];
                match spec_copy_entry(c, d, c.info.name, recursive, mirror) {
                    Err(e) => Err(e),
                    Ok((d2, was_retained)) => Ok(
                        (
                            d2,
                            if was_retained {
                                ret.push(c.info.name)
                            } else {
                                ret
                            },
                        ),
                    ),
                }
            },
        }
    }
}

/// Checks whether a name was retained during this walk.
fn name_retained(retained: &Vec<String>, name: &str) -> (r: bool)
    ensures
        r == retained.deep_view().contains(name@),
{
    let n = retained.len();
    for i in 0..n
        invariant
            n == retained@.len(),
            forall|j: int| 0 <= j < i ==> retained.deep_view()[j] != name@,
    {
        if str_eq(retained[i].as_str(), name) {
            proof {
                assert(retained.deep_view()[i as int] == name@);
            }
            return true;
        }
    }
    proof {
        if retained.deep_view().contains(name@) {
            let j = choose|j: int|
                0 <= j < retained.deep_view().len() && retained.deep_view()[j] == name@;
            assert(false);
        }
    }
    false
}

/// Removes every destination entry that was not retained during the walk,
/// leaving hidden and system entries untouched.
pub fn delete_unretained(entries: Vec<FsEntry>, retained: &Vec<String>) -> (r: Vec<FsEntry>)
    ensures
        views(r@) == mirror_retained(views(entries@), retained.deep_view()),
{
    proof {
        lemma_views(entries@);
    }
    let mut kept: Vec<FsEntry> = Vec::new();
    let mut entries = entries;
    let ghost all = views(entries@);
    let ghost ret = retained.deep_view();
    let n = entries.len();
    proof {
        assert(views(kept@) =~= Seq::<FsEntryView>::empty()) by {
            lemma_views(kept@);
        }
        lemma_mirror_take(all, ret, 0);
    }
    let mut i: usize = 0;
    while i < n
        invariant
            n == entries@.len(),
            i <= n,
            all == views(entries@),
            ret == retained.deep_view(),
            all.len() == n,
            forall|j: int| 0 <= j < n ==> all[j] == view_of(entries@[j]),
            views(kept@) =~= mirror_retained(all.take(i as int), ret),
        decreases n - i,
    {
        let e = &entries[i];
        let keep = e.info.is_hidden || e.info.is_system || name_retained(
            retained,
            e.info.name.as_str(),
        );
        proof {
            assert(all[i as int] == view_of(entries@[i as int]));
            assert(keep == keep_at_mirror(all[i as int], ret));
            lemma_mirror_push(all.take(i as int), all[i as int], ret);
            assert(all.take(i + 1) =~= all.take(i as int).push(all[i as int]));
        }
        if keep {
            let ghost old_kept = kept@;
            let cloned = clone_entry(e);
            kept.push(cloned);
            proof {
                lemma_views_push(old_kept, cloned);
            }
        }
        i = i + 1;
    }
    proof {
        assert(all.take(n as int) =~= all);
    }
    kept
}

/// `mirror_retained` over one more entry appends it when it is kept.
proof fn lemma_mirror_push(entries: Seq<FsEntryView>, x: FsEntryView, retained: Seq<Seq<char>>)
    ensures
        keep_at_mirror(x, retained) ==> mirror_retained(entries.push(x), retained)
            =~= mirror_retained(entries, retained).push(x),
        !keep_at_mirror(x, retained) ==> mirror_retained(entries.push(x), retained)
            =~= mirror_retained(entries, retained),
    decreases entries.len(),
{
    if entries.len() == 0 {
        assert(entries.push(x)[0] == x);
        assert(entries.push(x).skip(1) =~= Seq::<FsEntryView>::empty());
        assert(mirror_retained(Seq::<FsEntryView>::empty(), retained)
            =~= Seq::<FsEntryView>::empty());
    } else {
        assert(entries.push(x)[0] == entries[0]);
        assert(entries.push(x).skip(1) =~= entries.skip(1).push(x));
        lemma_mirror_push(entries.skip(1), x, retained);
    }
}

/// `mirror_retained` of an empty prefix is empty.
proof fn lemma_mirror_take(entries: Seq<FsEntryView>, retained: Seq<Seq<char>>, n: int)
    ensures
        mirror_retained(entries.take(0), retained) =~= Seq::<FsEntryView>::empty(),
{
    assert(entries.take(0) =~= Seq::<FsEntryView>::empty());
}

/// Copies one entry, its whole subtree included.
pub fn clone_entry(e: &FsEntry) -> (r: FsEntry)
    ensures
        view_of(r) == view_of(*e),
    decreases *e,
{
    let info = e.info.clone();
    let content = copy_bytes(&e.content);
    let mut children: Vec<FsEntry> = Vec::new();
    let n = e.children.len();
    proof {
        lemma_views(e.children@);
    }
    for i in 0..n
        invariant
            n == e.children@.len(),
            views(children@) =~= views(e.children@).take(i as int),
            forall|j: int| 0 <= j < n ==> views(e.children@)[j] == view_of(e.children@[j]),
            views(e.children@).len() == n,
        decreases n - i,
    {
        let ghost old_children = children@;
        let c = clone_entry(&e.children[i]);
        children.push(c);
        proof {
            lemma_views_push(old_children, c);
            assert(views(children@) =~= views(e.children@).take(i + 1));
        }
    }
    let r = FsEntry { info, content, children };
    proof {
        assert(views(e.children@).take(n as int) =~= views(e.children@));
        assert(view_of(r) == view_of(*e)) by {
            assert(view_of(r).info == view_of(*e).info);
            assert(view_of(r).content == view_of(*e).content);
            assert(view_of(r).children == views(r.children@));
            assert(view_of(*e).children == views(e.children@));
        }
    }
    r
}

/// Copies the first `n`—here always all—children of a source folder into
/// a destination folder's entries, each under its own display name, and
/// reports which names were retained.
pub fn copy_children(
    src_children: &Vec<FsEntry>,
    dest: Vec<FsEntry>,
    recursive: bool,
    mirror: bool,
) -> (r: Result<(Vec<FsEntry>, Vec<String>), AppError>)
    ensures
        match r {
            Ok((d, ret)) => spec_copy_children(
                views(src_children@),
                views(dest@),
                src_children@.len() as int,
                recursive,
                mirror,
            ) == Ok::<_, ()>((views(d@), ret.deep_view())),
            Err(e) => spec_copy_children(
                views(src_children@),
                views(dest@),
                src_children@.len() as int,
                recursive,
                mirror,
            ) is Err && e.kind == ErrorKind::IoFailure,
        },
    decreases src_children@,
{
    let ghost sv = views(src_children@);
    let ghost dv = views(dest@);
    proof {
        lemma_views(src_children@);
    }
    let mut d = dest;
    let mut retained: Vec<String> = Vec::new();
    let n = src_children.len();
    proof {
        assert(retained.deep_view() =~= Seq::<Seq<char>>::empty());
    }
    let mut i: usize = 0;
    while i < n
        invariant
            n == src_children@.len(),
            i <= n,
            sv == views(src_children@),
            dv == views(dest@),
            sv.len() == n,
            forall|j: int| 0 <= j < n ==> sv[j] == view_of(src_children@[j]),
            spec_copy_children(sv, dv, i as int, recursive, mirror) == Ok::<_, ()>(
                (views(d@), retained.deep_view()),
            ),
        decreases n - i,
    {
        let child = &src_children[i];
        let ghost d_before = views(d@);
        let ghost ret_before = retained.deep_view();
        let step = copy_hierarchy(child, d, child.info.name.as_str(), recursive, mirror);
        match step {
            Err(e) => {
                proof {
                    lemma_copy_children_err(sv, dv, i + 1, n as int, recursive, mirror);
                }
                return Err(e);
            },
            Ok((d2, was_retained)) => {
                d = d2;
                if was_retained {
                    let name = child.info.name.clone();
                    let ghost old_ret = retained.deep_view();
                    retained.push(name);
                    proof {
                        assert(retained.deep_view() =~= old_ret.push(
                            src_children@[i as int].info.name@,
                        ));
                    }
                }
                proof {
                    assert(sv[i as int].info.name == src_children@[i as int].info.name@);
                    assert(spec_copy_children(sv, dv, i + 1, recursive, mirror) == Ok::<_, ()>(
                        (views(d@), retained.deep_view()),
                    ));
                }
            },
        }
        i = i + 1;
    }
    Ok((d, retained))
}

/// Once a prefix of the children fails, the whole pass fails.
proof fn lemma_copy_children_err(
    children: Seq<FsEntryView>,
    dest: Seq<FsEntryView>,
    i: int,
    n: int,
    recursive: bool,
    mirror: bool,
)
    requires
        0 <= i <= n,
        spec_copy_children(children, dest, i, recursive, mirror) is Err,
        n <= children.len(),
    ensures
        spec_copy_children(children, dest, n, recursive, mirror) is Err,
    decreases n - i,
{
    if i < n {
        lemma_copy_children_err(children, dest, i + 1, n, recursive, mirror);
    }
}

/// Replays one source entry onto a destination folder, as the walk does
/// per entry: skip, replace, create, or recurse, with optional mirror
/// deletion of unretained destination children.  Returns the folder's
/// new entries and whether `dest_name` counts as retained.
pub fn copy_hierarchy(
    src: &FsEntry,
    dest: Vec<FsEntry>,
    dest_name: &str,
    recursive: bool,
    mirror: bool,
) -> (r: Result<(Vec<FsEntry>, bool), AppError>)
    ensures
        match r {
            Ok((d, retained)) => spec_copy_entry(
                view_of(*src),
                views(dest@),
                dest_name@,
                recursive,
                mirror,
            ) == Ok::<_, ()>((views(d@), retained)),
            Err(e) => spec_copy_entry(view_of(*src), views(dest@), dest_name@, recursive, mirror)
                is Err && e.kind == ErrorKind::IoFailure,
        },
    decreases *src,
{
    let ghost sv = view_of(*src);
    let ghost dv = views(dest@);
    proof {
        lemma_views(dest@);
        lemma_find_index(dv, dest_name@);
    }
    if src.info.is_hidden || src.info.is_system {
        return Ok((dest, false));
    }
    if !src.info.is_folder {
        let found = find_entry(&dest, dest_name);
        if let Some(i) = found {
            if can_skip_copying(&src.info, &dest[i].info) {
                proof {
                    assert(dv[i as int].info == dest@[i as int].info@);
                }
                return Ok((dest, true));
            }
        }
        let new_entry = FsEntry {
            info: FileInfo {
                name: dest_name.to_owned(),
                data_size: Some(src.content.len() as u64),
                is_folder: false,
                is_hidden: false,
                is_system: false,
                can_delete: true,
                time_created: src.info.time_created,
                time_modified: src.info.time_modified,
            },
            content: copy_bytes(&src.content),
            children: Vec::new(),
        };
        proof {
            assert(views(new_entry.children@) =~= Seq::<FsEntryView>::empty()) by {
                lemma_views(new_entry.children@);
            }
            assert(view_of(new_entry) == file_entry_of(sv, dest_name@));
        }
        let mut d = dest;
        match found {
            Some(i) => {
                proof {
                    assert(dv[i as int].info == d@[i as int].info@);
                }
                let ghost new_entry_view = view_of(new_entry);
                d.remove(i);
                d.insert(i, new_entry);
                proof {
                    vstd::seq_lib::lemma_update_is_remove_insert(dest@, i as int, d@[i as int]);
                    assert(d@ =~= dest@.update(i as int, d@[i as int]));
                    lemma_views(d@);
                    assert(views(d@) =~= dv.update(i as int, new_entry_view));
                }
                Ok((d, true))
            },
            None => {
                let ghost old_d = d@;
                let ghost new_entry_view = view_of(new_entry);
                d.push(new_entry);
                proof {
                    lemma_views_push(old_d, d@[d@.len() - 1]);
                    assert(views(d@) =~= dv.push(new_entry_view));
                }
                Ok((d, true))
            },
        }
    } else {
        let found = find_entry(&dest, dest_name);
        if let Some(i) = found {
            if !dest[i].info.is_folder {
                proof {
                    assert(dv[i as int].info == dest@[i as int].info@);
                }
                return Err(
                    AppError::new(ErrorKind::IoFailure, "cannot open a folder at the destination."),
                );
            }
        }
        let mut d = dest;
        let child0: FsEntry = match found {
            Some(i) => {
                proof {
                    assert(dv[i as int] == view_of(d@[i as int]));
                }
                d.remove(i)
            },
            None => FsEntry {
                info: FileInfo {
                    name: dest_name.to_owned(),
                    data_size: None,
                    is_folder: true,
                    is_hidden: false,
                    is_system: false,
                    can_delete: true,
                    time_created: None,
                    time_modified: None,
                },
                content: Vec::new(),
                children: Vec::new(),
            },
        };
        let ghost child0v = if spec_find_index(dv, dest_name@) >= 0 {
            dv[spec_find_index(dv, dest_name@)]
        } else {
            folder_entry_named(dest_name@)
        };
        proof {
            if spec_find_index(dv, dest_name@) < 0 {
                assert(views(child0.children@) =~= Seq::<FsEntryView>::empty()) by {
                    lemma_views(child0.children@);
                }
                assert(view_of(child0) == child0v);
            } else {
                assert(view_of(child0) == child0v);
            }
        }
        proof {
            assert(sv.children == views(src.children@));
            lemma_views(src.children@);
        }
        let child1: FsEntry;
        if recursive {
            let FsEntry { info: ci, content: cc, children: cch } = child0;
            let ghost cchv = views(cch@);
            proof {
                assert(cchv == child0v.children);
            }
            let step = copy_children(&src.children, cch, recursive, mirror);
            match step {
                Err(e) => {
                    proof {
                        assert(spec_copy_children(
                            sv.children,
                            child0v.children,
                            sv.children.len() as int,
                            recursive,
                            mirror,
                        ) is Err);
                    }
                    return Err(e);
                },
                Ok((mut new_children, retained)) => {
                    let ghost ncv0 = views(new_children@);
                    let ghost retv = retained.deep_view();
                    proof {
                        assert(spec_copy_children(
                            sv.children,
                            child0v.children,
                            sv.children.len() as int,
                            recursive,
                            mirror,
                        ) == Ok::<_, ()>((ncv0, retv)));
                    }
                    if mirror {
                        new_children = delete_unretained(new_children, &retained);
                        proof {
                            assert(views(new_children@) == mirror_retained(ncv0, retv));
                        }
                    }
                    child1 = FsEntry { info: ci, content: cc, children: new_children };
                    proof {
                        assert(view_of(child1).info == child0v.info);
                        assert(view_of(child1).content == child0v.content);
                        assert(view_of(child1).children == views(child1.children@));
                    }
                },
            }
        } else {
            child1 = child0;
        }
        let ghost child1v = view_of(child1);
        match found {
            Some(i) => {
                d.insert(i, child1);
                proof {
                    vstd::seq_lib::lemma_update_is_remove_insert(dest@, i as int, d@[i as int]);
                    assert(d@ =~= dest@.update(i as int, d@[i as int]));
                    lemma_views(d@);
                    assert(views(d@) =~= dv.update(i as int, child1v));
                }
                Ok((d, true))
            },
            None => {
                let ghost old_d = d@;
                d.push(child1);
                proof {
                    lemma_views_push(old_d, d@[d@.len() - 1]);
                    assert(views(d@) =~= dv.push(child1v));
                }
                Ok((d, true))
            },
        }
    }
}

} // verus!
