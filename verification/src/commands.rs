use vstd::prelude::*;

use crate::errors::AppError;
use crate::errors::ErrorKind;
use crate::filename::has_wildcard_char;
use crate::finders::matching_snapshots;
use crate::finders::results_view;
use crate::finders::spec_iterate_storage;
use crate::finders::spec_matching_snapshots;
use crate::finders::spec_storage_objects;
use crate::finders::snapshot_views;
use crate::object_info::ContentObjectInfo;
use crate::object_tree::DeviceSnapshot;
use crate::object_tree::DeviceSnapshotView;
use crate::object_tree::ObjectEntryView;
use crate::object_tree::lemma_object_views;
use crate::object_tree::object_views;
use crate::path::DeviceStoragePath;
use crate::path::PathType;
use crate::path::colon_parts;
use crate::path::colon_sep;
use crate::path::normalize_path;
use crate::pathmatch::compile_ok;
use crate::pathmatch::compiled_chain;
use crate::split::count_seps;

verus! {

/// Whether a path contains a wildcard character where none is allowed:
/// in the file path part of a device storage address (its device and
/// storage names may be patterns), or anywhere in a local path.
pub open spec fn spec_has_wildcard(path: Seq<char>, path_type: PathType) -> bool {
    match path_type {
        PathType::DeviceStorage => has_wildcard_char(normalize_path(colon_parts(path)[2])),
        PathType::Local => has_wildcard_char(path),
        PathType::Invalid => false,
    }
}

/// Checks a copy path argument for wildcard characters, which only the
/// listing command accepts.
pub fn has_wildcard(path: &str, path_type: PathType) -> (r: Result<bool, AppError>)
    ensures
        r is Ok ==> r->Ok_0 == spec_has_wildcard(path@, path_type),
        r is Err ==> path_type is DeviceStorage && count_seps(path@, colon_sep()) != 2
            && r->Err_0.kind == ErrorKind::InvalidPath,
        path_type is DeviceStorage && count_seps(path@, colon_sep()) == 2 ==> r is Ok,
        !(path_type is DeviceStorage) ==> r is Ok,
{
    match path_type {
        PathType::DeviceStorage => {
            let storage_path = match DeviceStoragePath::from(path) {
                Ok(p) => p,
                Err(e) => {
                    return Err(e);
                },
            };
            Ok(crate::FileNamePattern::has_wildcard(storage_path.path.as_str()))
        },
        PathType::Local => Ok(crate::FileNamePattern::has_wildcard(path)),
        PathType::Invalid => Ok(false),
    }
}

/// The visible state of a path target or its parent.
#[derive(Debug, Copy, Clone, PartialEq, Eq, Structural)]
pub enum TargetStatus {
    NotExist,
    Hidden,
    File,
    Folder,
}

/// How a copy uses its destination argument.
#[derive(Debug, Copy, Clone, PartialEq, Eq, Structural)]
pub enum DestinationPlan {
    /// The destination does not exist: create exactly that one new name
    /// under its existing parent folder.
    CreateUnderParent,
    /// The destination already exists as a file or folder: use that path
    /// itself as the target.
    UseExistingPath,
}

/// Decides how the copy uses its destination before any work starts: an
/// existing folder is used as it is, an existing file is replaced in
/// place, a fresh name is created when its parent folder exists, a
/// hidden destination is refused, and a missing parent is an error.
pub fn plan_destination(target_status: TargetStatus, parent_status: TargetStatus) -> (r: Result<
    DestinationPlan,
    AppError,
>)
    ensures
        target_status is NotExist && parent_status is Folder ==> r == Ok::<
            DestinationPlan,
            AppError,
        >(DestinationPlan::CreateUnderParent),
        target_status is NotExist && !(parent_status is Folder) ==> r is Err && r->Err_0.kind
            == ErrorKind::NotFound,
        target_status is Hidden ==> r is Err && r->Err_0.kind == ErrorKind::Forbidden,
        target_status is File || target_status is Folder ==> r == Ok::<DestinationPlan, AppError>(
            DestinationPlan::UseExistingPath,
        ),
{
    match target_status {
        TargetStatus::NotExist => {
            if matches!(parent_status, TargetStatus::Folder) {
                Ok(DestinationPlan::CreateUnderParent)
            } else {
                Err(AppError::new(ErrorKind::NotFound, "cannot create the destination path."))
            }
        },
        TargetStatus::Hidden => Err(
            AppError::new(ErrorKind::Forbidden, "destination path is a hidden file or folder."),
        ),
        TargetStatus::File => Ok(DestinationPlan::UseExistingPath),
        TargetStatus::Folder => Ok(DestinationPlan::UseExistingPath),
    }
}

/// The matches a listing of one device's matching storages yields: the
/// walks over the first `k` storages, one after another.
pub open spec fn spec_list_device(
    dev: DeviceSnapshotView,
    storages: Seq<ObjectEntryView>,
    k: int,
    norm: Seq<char>,
    recursive: bool,
) -> Seq<(crate::object_info::ContentObjectInfoView, Seq<char>)>
    decreases k,
{
    if k <= 0 || k > storages.len() {
        Seq::empty()
    } else {
        spec_list_device(dev, storages, k - 1, norm, recursive) + spec_iterate_storage(
            storages[k - 1],
            dev.name + seq![':'] + storages[k - 1].info.name + seq![':'],
            compiled_chain(norm),
            recursive,
        )
    }
}

/// The matches a listing yields over the first `n` matching devices.
pub open spec fn spec_list_devices(
    matching: Seq<DeviceSnapshotView>,
    n: int,
    storage_pat: Seq<char>,
    norm: Seq<char>,
    recursive: bool,
) -> Seq<(crate::object_info::ContentObjectInfoView, Seq<char>)>
    decreases n,
{
    if n <= 0 || n > matching.len() {
        Seq::empty()
    } else {
        spec_list_devices(matching, n - 1, storage_pat, norm, recursive) + spec_list_device(
            matching[n - 1],
            spec_storage_objects(matching[n - 1].content, storage_pat),
            spec_storage_objects(matching[n - 1].content, storage_pat).len() as int,
            norm,
            recursive,
        )
    }
}

/// Lists every file or folder matching a device storage address, with
/// its full display path.  The device name, storage name and path parts
/// may each be glob patterns; the address must parse, at least one
/// device must match, and the path pattern must compile as soon as a
/// matching device has a matching storage.
pub fn command_list_files(devices: &Vec<DeviceSnapshot>, path: &str, recursive: bool) -> (r: Result<
    Vec<(ContentObjectInfo, String)>,
    AppError,
>)
    ensures
        count_seps(path@, colon_sep()) != 2 ==> r is Err && r->Err_0.kind == ErrorKind::InvalidPath,
        count_seps(path@, colon_sep()) == 2 ==> ({
            let parts = colon_parts(path@);
            let matching = spec_matching_snapshots(snapshot_views(devices@), parts[0]);
            let norm = normalize_path(parts[2]);
            if matching.len() == 0 {
                r is Err && r->Err_0.kind == ErrorKind::NotFound
            } else if !compile_ok(norm) && (exists|d: int|
                0 <= d < matching.len() && spec_storage_objects(
                    matching[d].content,
                    parts[1],
                ).len() > 0) {
                r is Err && r->Err_0.kind == ErrorKind::InvalidPath
            } else {
                r is Ok && results_view(r->Ok_0@) == spec_list_devices(
                    matching,
                    matching.len() as int,
                    parts[1],
                    norm,
                    recursive,
                )
            }
        }),
{
    let storage_path = match DeviceStoragePath::from(path) {
        Ok(p) => p,
        Err(e) => {
            return Err(e);
        },
    };
    let ghost parts = colon_parts(path@);
    let ghost norm = normalize_path(parts[2]);
    let matching = matching_snapshots(devices, storage_path.device_name.as_str());
    let ghost mv = spec_matching_snapshots(snapshot_views(devices@), parts[0]);
    if matching.len() == 0 {
        return Err(AppError::new(ErrorKind::NotFound, "no device matched."));
    }
    let mut out: Vec<(ContentObjectInfo, String)> = Vec::new();
    let n = matching.len();
    proof {
        assert(snapshot_views(matching@) == mv);
        assert(results_view(out@) =~= spec_list_devices(mv, 0, parts[1], norm, recursive));
        assert(forall|d: int| 0 <= d < n ==> #[trigger] matching@[d]@ == mv[d]);
    }
    let mut i: usize = 0;
    while i < n
        invariant
            i <= n,
            n == matching@.len(),
            mv == snapshot_views(matching@),
            mv.len() == n,
            mv == spec_matching_snapshots(snapshot_views(devices@), parts[0]),
            forall|d: int| 0 <= d < n ==> #[trigger] matching@[d]@ == mv[d],
            count_seps(path@, colon_sep()) == 2,
            parts == colon_parts(path@),
            norm == normalize_path(parts[2]),
            norm == storage_path.path@,
            parts[1] == storage_path.storage_name@,
            storage_path.device_name@ == parts[0],
            mv.len() > 0,
            forall|d: int|
                0 <= d < i ==> spec_storage_objects(mv[d].content, parts[1]).len() == 0
                    || compile_ok(norm),
            results_view(out@) =~= spec_list_devices(mv, i as int, parts[1], norm, recursive),
        decreases n - i,
    {
        let device = &matching[i];
        let storages = crate::finders::matching_storage_entries(
            &device.content,
            storage_path.storage_name.as_str(),
        );
        let ghost sv = spec_storage_objects(mv[i as int].content, parts[1]);
        proof {
            assert(object_views(device.content@) == mv[i as int].content);
            assert(object_views(storages@) == sv);
            lemma_object_views(storages@);
        }
        let sn = storages.len();
        let ghost out_at_device = results_view(out@);
        let mut k: usize = 0;
        while k < sn
            invariant
                k <= sn,
                sn == storages@.len(),
                sv == object_views(storages@),
                sv.len() == sn,
                forall|j: int|
                    0 <= j < sn ==> #[trigger] crate::object_tree::object_view(storages@[j])
                        == sv[j],
                i < n,
                n == matching@.len(),
                mv.len() == n,
                mv.len() > 0,
                count_seps(path@, colon_sep()) == 2,
                parts == colon_parts(path@),
                norm == normalize_path(parts[2]),
                parts[1] == storage_path.storage_name@,
                mv == spec_matching_snapshots(snapshot_views(devices@), parts[0]),
                matching@[i as int]@ == mv[i as int],
                device.info.name@ == mv[i as int].name,
                sv == spec_storage_objects(mv[i as int].content, parts[1]),
                norm == storage_path.path@,
                k > 0 ==> compile_ok(norm),
                results_view(out@) =~= out_at_device + spec_list_device(
                    mv[i as int],
                    sv,
                    k as int,
                    norm,
                    recursive,
                ),
            decreases sn - k,
        {
            let step = crate::finders::device_iterate_file_or_folder(
                &device.info,
                &storages[k],
                storage_path.path.as_str(),
                recursive,
            );
            match step {
                Err(e) => {
                    proof {
                        assert(!compile_ok(norm));
                        assert(spec_storage_objects(mv[i as int].content, parts[1]).len() > 0);
                        assert(exists|d: int|
                            0 <= d < mv.len() && spec_storage_objects(
                                mv[d].content,
                                parts[1],
                            ).len() > 0) by {
                            assert((i as int) < mv.len());
                            assert(spec_storage_objects(mv[i as int].content, parts[1]).len() > 0);
                        }
                    }
                    return Err(e);
                },
                Ok(mut found) => {
                    let ghost out_before = results_view(out@);
                    let ghost found_view = results_view(found@);
                    out.append(&mut found);
                    proof {
                        assert(crate::object_tree::object_view(storages@[k as int])
                            == sv[k as int]);
                        assert(matching@[i as int]@ == mv[i as int]);
                        assert(device.info.name@ == mv[i as int].name);
                        assert(found_view == spec_iterate_storage(
                            sv[k as int],
                            mv[i as int].name + seq![':'] + sv[k as int].info.name + seq![':'],
                            compiled_chain(norm),
                            recursive,
                        ));
                        assert(results_view(out@) =~= out_before + found_view);
                        assert(results_view(out@) =~= out_at_device + spec_list_device(
                            mv[i as int],
                            sv,
                            k + 1,
                            norm,
                            recursive,
                        ));
                    }
                },
            }
            k = k + 1;
        }
        proof {
            assert(results_view(out@) =~= spec_list_devices(mv, i + 1, parts[1], norm, recursive));
        }
        i = i + 1;
    }
    proof {
        if !compile_ok(norm) {
            assert forall|d: int| 0 <= d < mv.len() implies spec_storage_objects(
                mv[d].content,
                parts[1],
            ).len() == 0 by {}
        }
    }
    Ok(out)
}

} // verus!
