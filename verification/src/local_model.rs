use vstd::prelude::*;

use crate::commands::DestinationPlan;
use crate::commands::TargetStatus;
use crate::commands::plan_destination;
use crate::copy_engine::copy_children;
use crate::copy_engine::copy_hierarchy;
use crate::copy_engine::delete_unretained;
use crate::copy_engine::mirror_retained;
use crate::copy_engine::spec_copy_children;
use crate::copy_engine::spec_copy_entry;
use crate::errors::AppError;
use crate::errors::ErrorKind;
use crate::fs_model::FsEntry;
use crate::fs_model::FsEntryView;
use crate::fs_model::find_entry;
use crate::fs_model::lemma_find_index;
use crate::fs_model::lemma_views;
use crate::fs_model::spec_find_index;
use crate::fs_model::view_of;
use crate::fs_model::views;
use crate::pathmatch::pattern_components;
use crate::split::lemma_nonempty_push;
use crate::split::nonempty;
use crate::split::split_components;
use crate::split::split_str;

verus! {

/// The non-empty components of a local path, split at the separators.
pub fn nonempty_components(path: &str) -> (r: Vec<String>)
    ensures
        r.deep_view() == pattern_components(path@),
{
    let seps: [char; 2] = ['/', '\\'];
    proof {
        assert(seps@ =~= crate::pathmatch::path_seps());
    }
    let comps = split_str(path, &seps);
    let ghost cs = comps.deep_view();
    let mut ne: Vec<String> = Vec::new();
    let cn = comps.len();
    proof {
        assert(cs.take(0) =~= Seq::<Seq<char>>::empty());
        assert(ne.deep_view() =~= nonempty(cs.take(0)));
    }
    for k in 0..cn
        invariant
            cn == comps@.len(),
            cs == comps.deep_view(),
            cs == split_components(path@, crate::pathmatch::path_seps()),
            ne.deep_view() =~= nonempty(cs.take(k as int)),
    {
        proof {
            assert(cs[k as int] == comps@[k as int]@);
        }
        if comps[k].unicode_len() > 0 {
            let part = comps[k].clone();
            ne.push(part);
        }
        proof {
            assert(cs.take(k + 1) =~= cs.take(k as int).push(cs[k as int]));
            lemma_nonempty_push(cs.take(k as int), cs[k as int]);
            assert(ne.deep_view() =~= nonempty(cs.take(k + 1)));
        }
    }
    proof {
        assert(cs.take(cn as int) =~= cs);
    }
    ne
}

/// The entry a component path leads to in a folder's entries, descending
/// through folders only: nothing for an empty path (it denotes the root
/// itself), and nothing where a component is missing or a non-final
/// component is not a folder.
pub open spec fn spec_resolve(entries: Seq<FsEntryView>, comps: Seq<Seq<char>>) -> Option<
    FsEntryView,
>
    decreases comps.len(),
{
    if comps.len() == 0 {
        None
    } else {
        let i = spec_find_index(entries, comps[0]);
        if i < 0 {
            None
        } else if comps.len() == 1 {
            Some(entries[i])
        } else if !entries[i].info.is_folder {
            None
        } else {
            spec_resolve(entries[i].children, comps.skip(1))
        }
    }
}

/// Resolves a component path, starting at component `from`.
pub fn resolve_path<'a>(entries: &'a Vec<FsEntry>, comps: &Vec<String>, from: usize) -> (r: Option<
    &'a FsEntry,
>)
    requires
        from <= comps@.len(),
    ensures
        match r {
            Some(e) => spec_resolve(views(entries@), comps.deep_view().skip(from as int)) == Some(
                view_of(*e),
            ),
            None => spec_resolve(views(entries@), comps.deep_view().skip(from as int)) is None,
        },
    decreases comps@.len() - from,
{
    let ghost ev = views(entries@);
    let ghost cv = comps.deep_view().skip(from as int);
    proof {
        lemma_views(entries@);
        lemma_find_index(ev, comps.deep_view()[from as int]);
    }
    if from == comps.len() {
        return None;
    }
    proof {
        assert(cv[0] == comps.deep_view()[from as int]);
        assert(comps.deep_view()[from as int] == comps@[from as int]@);
    }
    let found = find_entry(entries, comps[from].as_str());
    match found {
        None => None,
        Some(i) => {
            if from + 1 == comps.len() {
                proof {
                    assert(cv.len() == 1);
                    assert(ev[i as int] == view_of(entries@[i as int]));
                }
                Some(&entries[i])
            } else if !entries[i].info.is_folder {
                proof {
                    assert(ev[i as int] == view_of(entries@[i as int]));
                }
                None
            } else {
                let r = resolve_path(&entries[i].children, comps, from + 1);
                proof {
                    assert(ev[i as int] == view_of(entries@[i as int]));
                    assert(view_of(entries@[i as int]).children == views(
                        entries@[i as int].children@,
                    ));
                    assert(cv.skip(1) =~= comps.deep_view().skip(from + 1));
                }
                r
            }
        },
    }
}

/// The visible status of what a component path leads to.
pub open spec fn spec_status(resolved: Option<FsEntryView>) -> TargetStatus {
    match resolved {
        None => TargetStatus::NotExist,
        Some(e) => {
            if e.info.is_hidden || e.info.is_system {
                TargetStatus::Hidden
            } else if e.info.is_folder {
                TargetStatus::Folder
            } else {
                TargetStatus::File
            }
        },
    }
}

/// The status of the entry a component path leads to; an empty path
/// denotes the root folder itself.
pub fn inspect_local_path_status(entries: &Vec<FsEntry>, comps: &Vec<String>, from: usize) -> (r:
    TargetStatus)
    requires
        from <= comps@.len(),
    ensures
        from < comps@.len() ==> r == spec_status(
            spec_resolve(views(entries@), comps.deep_view().skip(from as int)),
        ),
        from == comps@.len() ==> r == TargetStatus::Folder,
{
    if from == comps.len() {
        return TargetStatus::Folder;
    }
    match resolve_path(entries, comps, from) {
        None => TargetStatus::NotExist,
        Some(e) => {
            if e.info.is_hidden || e.info.is_system {
                TargetStatus::Hidden
            } else if e.info.is_folder {
                TargetStatus::Folder
            } else {
                TargetStatus::File
            }
        },
    }
}

/// The status of a local path's target and of its parent.  The parent of
/// a path with one component, or none, is the root folder.
pub fn inspect_local_path(entries: &Vec<FsEntry>, path: &str) -> (r: (TargetStatus, TargetStatus))
    ensures
        ({
            let comps = pattern_components(path@);
            &&& (comps.len() == 0 ==> r.0 == TargetStatus::Folder)
            &&& (comps.len() > 0 ==> r.0 == spec_status(spec_resolve(views(entries@), comps)))
            &&& (comps.len() <= 1 ==> r.1 == TargetStatus::Folder)
            &&& (comps.len() > 1 ==> r.1 == spec_status(
                spec_resolve(views(entries@), comps.take(comps.len() - 1)),
            ))
        }),
{
    let comps = nonempty_components(path);
    proof {
        assert(comps.deep_view().skip(0) =~= comps.deep_view());
    }
    let target_status = inspect_local_path_status(entries, &comps, 0);
    let parent_status: TargetStatus;
    if comps.len() <= 1 {
        parent_status = TargetStatus::Folder;
    } else {
        let ghost full = comps.deep_view();
        let parent = all_but_last(&comps);
        proof {
            assert(parent.deep_view().skip(0) =~= parent.deep_view());
        }
        parent_status = inspect_local_path_status(entries, &parent, 0);
    }
    (target_status, parent_status)
}

/// Whether a component path descends through existing folders only, the
/// final entry included.
pub open spec fn path_is_folder_chain(entries: Seq<FsEntryView>, comps: Seq<Seq<char>>) -> bool
    decreases comps.len(),
{
    comps.len() == 0 || {
        let i = spec_find_index(entries, comps[0]);
        &&& i >= 0
        &&& entries[i].info.is_folder
        &&& path_is_folder_chain(entries[i].children, comps.skip(1))
    }
}

/// A path that resolves to a folder descends through folders only.
pub proof fn lemma_resolved_folder_is_chain(entries: Seq<FsEntryView>, comps: Seq<Seq<char>>)
    requires
        comps.len() > 0,
        spec_resolve(entries, comps) is Some,
        spec_resolve(entries, comps)->Some_0.info.is_folder,
    ensures
        path_is_folder_chain(entries, comps),
    decreases comps.len(),
{
    let i = spec_find_index(entries, comps[0]);
    if comps.len() > 1 {
        lemma_resolved_folder_is_chain(entries[i].children, comps.skip(1));
    } else {
        assert(spec_resolve(entries, comps) == Some(entries[i]));
        assert(comps.skip(1).len() == 0);
        assert(path_is_folder_chain(entries[i].children, comps.skip(1)));
    }
}

/// The children a folder chain ends at: the entries themselves for the
/// empty path, else the final folder's children.
pub open spec fn spec_children_at(entries: Seq<FsEntryView>, comps: Seq<Seq<char>>) -> Seq<
    FsEntryView,
>
    decreases comps.len(),
{
    if comps.len() == 0 {
        entries
    } else {
        let i = spec_find_index(entries, comps[0]);
        spec_children_at(entries[i].children, comps.skip(1))
    }
}

/// The entries after the folder at the end of the chain is given new
/// children: the new children themselves for the empty path.
pub open spec fn spec_update_at(
    entries: Seq<FsEntryView>,
    comps: Seq<Seq<char>>,
    new_children: Seq<FsEntryView>,
) -> Seq<FsEntryView>
    decreases comps.len(),
{
    if comps.len() == 0 {
        new_children
    } else {
        let i = spec_find_index(entries, comps[0]);
        let e = entries[i];
        entries.update(
            i,
            FsEntryView {
                info: e.info,
                content: e.content,
                children: spec_update_at(e.children, comps.skip(1), new_children),
            },
        )
    }
}

/// Copies the children a folder chain ends at.
pub fn children_at<'a>(entries: &'a Vec<FsEntry>, comps: &Vec<String>, from: usize) -> (r: Vec<
    FsEntry,
>)
    requires
        from <= comps@.len(),
        path_is_folder_chain(views(entries@), comps.deep_view().skip(from as int)),
    ensures
        views(r@) == spec_children_at(views(entries@), comps.deep_view().skip(from as int)),
    decreases comps@.len() - from,
{
    let ghost ev = views(entries@);
    let ghost cv = comps.deep_view().skip(from as int);
    proof {
        lemma_views(entries@);
        lemma_find_index(ev, comps.deep_view()[from as int]);
    }
    if from == comps.len() {
        let mut out: Vec<FsEntry> = Vec::new();
        let n = entries.len();
        proof {
            assert(views(out@) =~= ev.take(0)) by {
                lemma_views(out@);
            }
        }
        let mut i: usize = 0;
        while i < n
            invariant
                i <= n,
                n == entries@.len(),
                ev == views(entries@),
                ev.len() == n,
                forall|j: int| 0 <= j < n ==> ev[j] == view_of(entries@[j]),
                views(out@) =~= ev.take(i as int),
            decreases n - i,
        {
            let ghost old_out = out@;
            let c = crate::copy_engine::clone_entry(&entries[i]);
            out.push(c);
            proof {
                crate::fs_model::lemma_views_push(old_out, c);
                assert(views(out@) =~= ev.take(i + 1));
            }
            i = i + 1;
        }
        proof {
            assert(ev.take(n as int) =~= ev);
        }
        return out;
    }
    proof {
        assert(cv[0] == comps.deep_view()[from as int]);
        assert(comps.deep_view()[from as int] == comps@[from as int]@);
    }
    let found = find_entry(entries, comps[from].as_str());
    match found {
        Some(i) => {
            proof {
                assert(ev[i as int] == view_of(entries@[i as int]));
                assert(view_of(entries@[i as int]).children == views(entries@[i as int].children@));
                assert(cv.skip(1) =~= comps.deep_view().skip(from + 1));
            }
            children_at(&entries[i].children, comps, from + 1)
        },
        None => {
            proof {
                assert(false);
            }
            Vec::new()
        },
    }
}

/// Gives the folder at the end of the chain new children, rebuilding the
/// entries along the path.
pub fn update_children_at(
    entries: Vec<FsEntry>,
    comps: &Vec<String>,
    from: usize,
    new_children: Vec<FsEntry>,
) -> (r: Vec<FsEntry>)
    requires
        from <= comps@.len(),
        path_is_folder_chain(views(entries@), comps.deep_view().skip(from as int)),
    ensures
        views(r@) == spec_update_at(
            views(entries@),
            comps.deep_view().skip(from as int),
            views(new_children@),
        ),
    decreases comps@.len() - from,
{
    let ghost ev = views(entries@);
    let ghost cv = comps.deep_view().skip(from as int);
    proof {
        lemma_views(entries@);
        lemma_find_index(ev, comps.deep_view()[from as int]);
    }
    if from == comps.len() {
        return new_children;
    }
    proof {
        assert(cv[0] == comps.deep_view()[from as int]);
        assert(comps.deep_view()[from as int] == comps@[from as int]@);
    }
    let found = find_entry(&entries, comps[from].as_str());
    match found {
        Some(i) => {
            let mut d = entries;
            let e = d.remove(i);
            proof {
                assert(ev[i as int] == view_of(e));
                assert(view_of(e).children == views(e.children@));
                assert(cv.skip(1) =~= comps.deep_view().skip(from + 1));
            }
            let FsEntry { info, content, children } = e;
            let updated = update_children_at(children, comps, from + 1, new_children);
            let e2 = FsEntry { info, content, children: updated };
            let ghost e2v = view_of(e2);
            d.insert(i, e2);
            proof {
                vstd::seq_lib::lemma_update_is_remove_insert(entries@, i as int, d@[i as int]);
                assert(d@ =~= entries@.update(i as int, d@[i as int]));
                lemma_views(d@);
                assert(views(d@) =~= ev.update(i as int, e2v));
                assert(views(d@) =~= spec_update_at(ev, cv, views(new_children@)));
            }
            d
        },
        None => {
            proof {
                assert(false);
            }
            entries
        },
    }
}

/// A copy of the components with the last one dropped.
pub fn all_but_last(comps: &Vec<String>) -> (r: Vec<String>)
    requires
        comps@.len() > 0,
    ensures
        r.deep_view() == comps.deep_view().take(comps.deep_view().len() - 1),
{
    let mut out: Vec<String> = Vec::new();
    let n = comps.len() - 1;
    proof {
        assert(out.deep_view() =~= comps.deep_view().take(0));
    }
    for i in 0..n
        invariant
            n == comps@.len() - 1,
            out.deep_view() =~= comps.deep_view().take(i as int),
    {
        let ghost old_out = out@;
        let ghost old_deep = out.deep_view();
        proof {
            assert(old_deep.len() == old_out.len());
            assert(forall|j: int| 0 <= j < old_out.len() ==> old_deep[j] == #[trigger] old_out[j]@);
        }
        let part = comps[i].clone();
        out.push(part);
        proof {
            assert(comps.deep_view()[i as int] == comps@[i as int]@);
            assert(out@ == old_out.push(part));
            assert(old_out.len() == i as int);
            assert forall|j: int| 0 <= j < out@.len() implies out.deep_view()[j]
                == comps.deep_view().take(i + 1)[j] by {
                assert(out.deep_view()[j] == out@[j]@);
                if j < i {
                    assert(out@[j] == old_out.push(part)[j]);
                    assert(old_out.push(part)[j] == old_out[j]);
                    assert(old_out[j]@ == old_deep[j]);
                } else {
                    assert(out@[j] == old_out.push(part)[j]);
                    assert(old_out.push(part)[j] == part);
                    assert(part@ == comps@[i as int]@);
                }
            }
            assert(out.deep_view() =~= comps.deep_view().take(i + 1));
        }
    }
    out
}


/// A resolved path's every component but the last descends through
/// folders.
pub proof fn lemma_resolve_prefix_chain(entries: Seq<FsEntryView>, comps: Seq<Seq<char>>)
    requires
        comps.len() > 0,
        spec_resolve(entries, comps) is Some,
    ensures
        path_is_folder_chain(entries, comps.take(comps.len() - 1)),
    decreases comps.len(),
{
    if comps.len() == 1 {
        assert(comps.take(0).len() == 0);
    } else {
        let i = spec_find_index(entries, comps[0]);
        lemma_resolve_prefix_chain(entries[i].children, comps.skip(1));
        let p = comps.take(comps.len() - 1);
        assert(p[0] == comps[0]);
        assert(p.skip(1) =~= comps.skip(1).take(comps.skip(1).len() - 1));
    }
}

/// What replaying a source entry onto a local hierarchy leaves there,
/// under the top-level destination policy: a hidden destination is
/// refused; a destination with no existing parent folder cannot be
/// created; a fresh name is created under its parent; an existing file
/// is replaced in place; and an existing folder is used as it is — a
/// file source is copied into it under the source's name, and a folder
/// source has its children copied straight into it, with unretained
/// visible entries deleted afterwards when mirroring.
pub open spec fn spec_copy_to_local(
    fv: Seq<FsEntryView>,
    comps: Seq<Seq<char>>,
    src: FsEntryView,
    recursive: bool,
    mirror: bool,
) -> Result<Seq<FsEntryView>, ErrorKind> {
    let target = if comps.len() == 0 {
        TargetStatus::Folder
    } else {
        spec_status(spec_resolve(fv, comps))
    };
    let parent = if comps.len() <= 1 {
        TargetStatus::Folder
    } else {
        spec_status(spec_resolve(fv, comps.take(comps.len() - 1)))
    };
    if target is Hidden {
        Err(ErrorKind::Forbidden)
    } else if target is NotExist && !(parent is Folder) {
        Err(ErrorKind::NotFound)
    } else if target is NotExist || target is File {
        let pcomps = comps.take(comps.len() - 1);
        let base = spec_children_at(fv, pcomps);
        match spec_copy_entry(src, base, comps.last(), recursive, mirror) {
            Err(_) => Err(ErrorKind::IoFailure),
            Ok((d2, retained)) => Ok(spec_update_at(fv, pcomps, d2)),
        }
    } else {
        if src.info.is_hidden || src.info.is_system {
            Ok(fv)
        } else if !src.info.is_folder {
            let base = spec_children_at(fv, comps);
            match spec_copy_entry(src, base, src.info.name, recursive, mirror) {
                Err(_) => Err(ErrorKind::IoFailure),
                Ok((d2, retained)) => Ok(spec_update_at(fv, comps, d2)),
            }
        } else if !recursive {
            Ok(fv)
        } else {
            let base = spec_children_at(fv, comps);
            match spec_copy_children(
                src.children,
                base,
                src.children.len() as int,
                recursive,
                mirror,
            ) {
                Err(_) => Err(ErrorKind::IoFailure),
                Ok((d2, ret)) => Ok(
                    spec_update_at(
                        fv,
                        comps,
                        if mirror {
                            mirror_retained(d2, ret)
                        } else {
                            d2
                        },
                    ),
                ),
            }
        }
    }
}

/// Replays a source entry onto a model local filesystem under the given
/// destination path, following the top-level destination policy, and
/// returns the updated hierarchy.
pub fn copy_to_local_destination(
    forest: Vec<FsEntry>,
    dest_path: &str,
    source: &FsEntry,
    recursive: bool,
    mirror: bool,
) -> (r: Result<Vec<FsEntry>, AppError>)
    ensures
        ({
            let spec_r = spec_copy_to_local(
                views(forest@),
                pattern_components(dest_path@),
                view_of(*source),
                recursive,
                mirror,
            );
            match r {
                Ok(f2) => spec_r == Ok::<_, ErrorKind>(views(f2@)),
                Err(e) => spec_r == Err::<Seq<FsEntryView>, _>(e.kind),
            }
        }),
{
    let ghost fv = views(forest@);
    let ghost cvs = pattern_components(dest_path@);
    let ghost sv = view_of(*source);
    let comps = nonempty_components(dest_path);
    let (target_status, parent_status) = inspect_local_path(&forest, dest_path);
    let plan = match plan_destination(target_status, parent_status) {
        Ok(p) => p,
        Err(e) => {
            return Err(e);
        },
    };
    proof {
        assert(comps.deep_view() == cvs);
    }
    match plan {
        DestinationPlan::CreateUnderParent => {
            // the destination name does not exist; its parent folder does
            proof {
                assert(cvs.len() > 0);
                if cvs.len() > 1 {
                    lemma_resolved_folder_is_chain(fv, cvs.take(cvs.len() - 1));
                }
                assert(cvs.take(cvs.len() - 1) =~= comps.deep_view().take(
                    comps.deep_view().len() - 1,
                ));
            }
            let parent = all_but_last(&comps);
            proof {
                assert(parent.deep_view().skip(0) =~= parent.deep_view());
            }
            let base = children_at(&forest, &parent, 0);
            let name_index = comps.len() - 1;
            let step = copy_hierarchy(source, base, comps[name_index].as_str(), recursive, mirror);
            match step {
                Err(e) => {
                    proof {
                        assert(comps.deep_view()[name_index as int] == cvs.last());
                    }
                    Err(e)
                },
                Ok((d2, _)) => {
                    let updated = update_children_at(forest, &parent, 0, d2);
                    proof {
                        assert(comps.deep_view()[name_index as int] == cvs.last());
                    }
                    Ok(updated)
                },
            }
        },
        DestinationPlan::UseExistingPath => {
            if matches!(target_status, TargetStatus::File) {
                // replace the existing file in place
                proof {
                    assert(cvs.len() > 0);
                    lemma_resolve_prefix_chain(fv, cvs);
                    assert(cvs.take(cvs.len() - 1) =~= comps.deep_view().take(
                        comps.deep_view().len() - 1,
                    ));
                }
                let parent = all_but_last(&comps);
                proof {
                    assert(parent.deep_view().skip(0) =~= parent.deep_view());
                }
                let base = children_at(&forest, &parent, 0);
                let name_index = comps.len() - 1;
                let step = copy_hierarchy(
                    source,
                    base,
                    comps[name_index].as_str(),
                    recursive,
                    mirror,
                );
                match step {
                    Err(e) => {
                        proof {
                            assert(comps.deep_view()[name_index as int] == cvs.last());
                        }
                        Err(e)
                    },
                    Ok((d2, _)) => {
                        let updated = update_children_at(forest, &parent, 0, d2);
                        proof {
                            assert(comps.deep_view()[name_index as int] == cvs.last());
                        }
                        Ok(updated)
                    },
                }
            } else {
                // the existing destination folder is used as it is
                proof {
                    if cvs.len() > 0 {
                        lemma_resolved_folder_is_chain(fv, cvs);
                    }
                    assert(comps.deep_view().skip(0) =~= comps.deep_view());
                }
                if source.info.is_hidden || source.info.is_system {
                    return Ok(forest);
                }
                if !source.info.is_folder {
                    let base = children_at(&forest, &comps, 0);
                    let step = copy_hierarchy(
                        source,
                        base,
                        source.info.name.as_str(),
                        recursive,
                        mirror,
                    );
                    match step {
                        Err(e) => Err(e),
                        Ok((d2, _)) => Ok(update_children_at(forest, &comps, 0, d2)),
                    }
                } else if !recursive {
                    Ok(forest)
                } else {
                    let base = children_at(&forest, &comps, 0);
                    let step = copy_children(&source.children, base, recursive, mirror);
                    match step {
                        Err(e) => {
                            proof {
                                lemma_views(source.children@);
                                assert(sv.children == views(source.children@));
                                assert(sv.children.len() == source.children@.len());
                            }
                            Err(e)
                        },
                        Ok((mut d2, retained)) => {
                            proof {
                                lemma_views(source.children@);
                                assert(sv.children == views(source.children@));
                                assert(sv.children.len() == source.children@.len());
                            }
                            if mirror {
                                d2 = delete_unretained(d2, &retained);
                            }
                            Ok(update_children_at(forest, &comps, 0, d2))
                        },
                    }
                }
            }
        },
    }
}

} // verus!
