use vstd::prelude::*;

use crate::errors::AppError;
use crate::errors::ErrorKind;
use crate::filename::FileNamePattern;
use crate::filename::glob_match;
use crate::filename::push_char;
use crate::object_info::ContentObjectInfo;
use crate::object_info::ContentObjectInfoView;
use crate::object_info::DeviceInfo;
use crate::object_info::DeviceInfoView;
use crate::path::DeviceStoragePath;
use crate::pathmatch::PathMatchingState;
use crate::object_tree::DeviceSnapshot;
use crate::object_tree::ObjectEntry;
use crate::object_tree::ObjectEntryView;
use crate::object_tree::clone_object_entry;
use crate::object_tree::lemma_object_views;
use crate::object_tree::object_view;
use crate::object_tree::object_views;

verus! {

/// The pattern a caller's optional pattern stands for: absent means all.
pub open spec fn spec_pattern_of(pattern: Option<&str>) -> Seq<char> {
    match pattern {
        None => seq!['*'],
        Some(p) => p@,
    }
}

/// The abstract values of a device list.
pub open spec fn device_views(s: Seq<DeviceInfo>) -> Seq<DeviceInfoView> {
    Seq::new(s.len(), |i: int| s[i]@)
}

/// The abstract values of an object metadata list.
pub open spec fn info_views(s: Seq<ContentObjectInfo>) -> Seq<ContentObjectInfoView> {
    Seq::new(s.len(), |i: int| s[i]@)
}

/// The devices whose friendly name matches the pattern, in order.
pub open spec fn spec_matching_devices(devs: Seq<DeviceInfoView>, pat: Seq<char>) -> Seq<
    DeviceInfoView,
>
    decreases devs.len(),
{
    if devs.len() == 0 {
        Seq::empty()
    } else if glob_match(devs[0].name, pat) {
        seq![devs[0]] + spec_matching_devices(devs.skip(1), pat)
    } else {
        spec_matching_devices(devs.skip(1), pat)
    }
}

proof fn lemma_matching_devices_push(devs: Seq<DeviceInfoView>, x: DeviceInfoView, pat: Seq<char>)
    ensures
        glob_match(x.name, pat) ==> spec_matching_devices(devs.push(x), pat)
            =~= spec_matching_devices(devs, pat).push(x),
        !glob_match(x.name, pat) ==> spec_matching_devices(devs.push(x), pat)
            =~= spec_matching_devices(devs, pat),
    decreases devs.len(),
{
    if devs.len() == 0 {
        assert(devs.push(x)[0] == x);
        assert(devs.push(x).skip(1) =~= Seq::<DeviceInfoView>::empty());
        assert(spec_matching_devices(Seq::<DeviceInfoView>::empty(), pat)
            =~= Seq::<DeviceInfoView>::empty());
    } else {
        assert(devs.push(x)[0] == devs[0]);
        assert(devs.push(x).skip(1) =~= devs.skip(1).push(x));
        lemma_matching_devices_push(devs.skip(1), x, pat);
    }
}

/// Returns the devices whose name is matching the specified pattern, or
/// returns all devices if the pattern was None.
pub fn device_find_devices(devices: &Vec<DeviceInfo>, pattern: Option<&str>) -> (r: Vec<DeviceInfo>)
    ensures
        device_views(r@) == spec_matching_devices(device_views(devices@), spec_pattern_of(pattern)),
{
    let name_pattern = match pattern {
        Some(p) => FileNamePattern::new(p),
        None => FileNamePattern::new("*"),
    };
    proof {
        reveal_strlit("*");
        assert("*"@ =~= seq!['*']);
        assert(name_pattern@ == spec_pattern_of(pattern));
    }
    let ghost pat = spec_pattern_of(pattern);
    let ghost dv = device_views(devices@);
    let mut out: Vec<DeviceInfo> = Vec::new();
    let n = devices.len();
    proof {
        assert(dv.take(0) =~= Seq::<DeviceInfoView>::empty());
        assert(device_views(out@) =~= spec_matching_devices(dv.take(0), pat));
    }
    for i in 0..n
        invariant
            n == devices@.len(),
            dv == device_views(devices@),
            pat == name_pattern@,
            pat == spec_pattern_of(pattern),
            dv.len() == n,
            device_views(out@) =~= spec_matching_devices(dv.take(i as int), pat),
    {
        let ghost out_before = device_views(out@);
        if name_pattern.matches(devices[i].name.as_str()) {
            out.push(devices[i].clone());
        }
        proof {
            assert(dv[i as int] == devices@[i as int]@);
            lemma_matching_devices_push(dv.take(i as int), dv[i as int], pat);
            assert(dv.take(i + 1) =~= dv.take(i as int).push(dv[i as int]));
            if glob_match(dv[i as int].name, pat) {
                assert(device_views(out@) =~= out_before.push(dv[i as int]));
            } else {
                assert(device_views(out@) =~= out_before);
            }
        }
    }
    proof {
        assert(dv.take(n as int) =~= dv);
    }
    out
}

/// Index of the device functional object among the root's children, or -1.
pub open spec fn spec_device_object_index(s: Seq<ObjectEntryView>) -> int
    decreases s.len(),
{
    if s.len() == 0 {
        -1
    } else if s[0].info.functional_object_category is Device {
        0
    } else {
        let r = spec_device_object_index(s.skip(1));
        if r < 0 {
            -1
        } else {
            r + 1
        }
    }
}

pub proof fn lemma_device_object_index(s: Seq<ObjectEntryView>)
    ensures
        spec_device_object_index(s) >= 0 ==> spec_device_object_index(s) < s.len()
            && s[spec_device_object_index(s)].info.functional_object_category is Device && forall|
            j: int,
        | 0 <= j < spec_device_object_index(s) ==> !(s[j].info.functional_object_category is Device),
        spec_device_object_index(s) < 0 ==> forall|j: int|
            0 <= j < s.len() ==> !(s[j].info.functional_object_category is Device),
    decreases s.len(),
{
    if s.len() == 0 {
    } else if s[0].info.functional_object_category is Device {
    } else {
        lemma_device_object_index(s.skip(1));
        let r = spec_device_object_index(s.skip(1));
        if r >= 0 {
            assert(s.skip(1)[r] == s[r + 1]);
            assert forall|j: int| 0 <= j < r + 1 implies !(
            s[j].info.functional_object_category is Device) by {
                if j > 0 {
                    assert(s[j] == s.skip(1)[j - 1]);
                }
            }
        } else {
            assert forall|j: int| 0 <= j < s.len() implies !(
            s[j].info.functional_object_category is Device) by {
                if j > 0 {
                    assert(s[j] == s.skip(1)[j - 1]);
                }
            }
        }
    }
}

/// Finds the device functional object among the root's children.
pub fn device_find_device_object(root_children: &Vec<ObjectEntry>) -> (r: Option<ContentObjectInfo>)
    ensures
        match r {
            Some(info) => spec_device_object_index(object_views(root_children@)) >= 0 && info@
                == object_views(root_children@)[spec_device_object_index(
                object_views(root_children@),
            )].info,
            None => spec_device_object_index(object_views(root_children@)) < 0,
        },
{
    let ghost ov = object_views(root_children@);
    proof {
        lemma_object_views(root_children@);
        lemma_device_object_index(ov);
    }
    let n = root_children.len();
    for i in 0..n
        invariant
            n == root_children@.len(),
            ov == object_views(root_children@),
            ov.len() == n,
            forall|j: int| 0 <= j < n ==> ov[j] == object_view(root_children@[j]),
            forall|j: int| 0 <= j < i ==> !(ov[j].info.functional_object_category is Device),
            spec_device_object_index(ov) >= 0 ==> spec_device_object_index(ov) < n
                && ov[spec_device_object_index(ov)].info.functional_object_category is Device,
            spec_device_object_index(ov) >= 0 ==> forall|j: int|
                0 <= j < spec_device_object_index(ov) ==> !(
                ov[j].info.functional_object_category is Device),
            spec_device_object_index(ov) < 0 ==> forall|j: int|
                0 <= j < n ==> !(ov[j].info.functional_object_category is Device),
    {
        if root_children[i].info.is_device() {
            proof {
                let k = spec_device_object_index(ov);
                assert(ov[i as int].info.functional_object_category is Device);
                if k < 0 || k < i || k > i {
                    assert(false);
                }
            }
            return Some(root_children[i].info.clone());
        }
    }
    proof {
        let k = spec_device_object_index(ov);
        if k >= 0 {
            assert(ov[k].info.functional_object_category is Device);
            assert(false);
        }
    }
    None
}

/// The storage volumes under the device object whose name matches, in
/// order; nothing when there is no device object.
pub open spec fn spec_storage_matches(children: Seq<ObjectEntryView>, pat: Seq<char>) -> Seq<
    ObjectEntryView,
>
    decreases children.len(),
{
    if children.len() == 0 {
        Seq::empty()
    } else if children[0].info.functional_object_category is Storage && glob_match(
        children[0].info.name,
        pat,
    ) {
        seq![children[0]] + spec_storage_matches(children.skip(1), pat)
    } else {
        spec_storage_matches(children.skip(1), pat)
    }
}

proof fn lemma_storage_matches_push(children: Seq<ObjectEntryView>, x: ObjectEntryView, pat: Seq<char>)
    ensures
        (x.info.functional_object_category is Storage && glob_match(x.info.name, pat))
            ==> spec_storage_matches(children.push(x), pat) =~= spec_storage_matches(
            children,
            pat,
        ).push(x),
        !(x.info.functional_object_category is Storage && glob_match(x.info.name, pat))
            ==> spec_storage_matches(children.push(x), pat) =~= spec_storage_matches(children, pat),
    decreases children.len(),
{
    if children.len() == 0 {
        assert(children.push(x)[0] == x);
        assert(children.push(x).skip(1) =~= Seq::<ObjectEntryView>::empty());
        assert(spec_storage_matches(Seq::<ObjectEntryView>::empty(), pat)
            =~= Seq::<ObjectEntryView>::empty());
    } else {
        assert(children.push(x)[0] == children[0]);
        assert(children.push(x).skip(1) =~= children.skip(1).push(x));
        lemma_storage_matches_push(children.skip(1), x, pat);
    }
}

/// What the storage search yields for a device's root children: the
/// matching storages under its device object, or nothing without one.
pub open spec fn spec_storage_objects(root: Seq<ObjectEntryView>, pat: Seq<char>) -> Seq<
    ObjectEntryView,
> {
    let d = spec_device_object_index(root);
    if d < 0 {
        Seq::empty()
    } else {
        spec_storage_matches(root[d].children, pat)
    }
}

/// Returns storage objects whose name is matching the specified pattern,
/// or returns all storage objects if the pattern was None.
pub fn device_find_storage_objects(root_children: &Vec<ObjectEntry>, pattern: Option<&str>) -> (r:
    Vec<ContentObjectInfo>)
    ensures
        info_views(r@) == Seq::new(
            spec_storage_objects(object_views(root_children@), spec_pattern_of(pattern)).len(),
            |i: int|
                spec_storage_objects(object_views(root_children@), spec_pattern_of(pattern))[i].info,
        ),
{
    let ghost root = object_views(root_children@);
    let ghost pat = spec_pattern_of(pattern);
    proof {
        lemma_object_views(root_children@);
        lemma_device_object_index(root);
    }
    let mut objects: Vec<ContentObjectInfo> = Vec::new();
    let device_obj_index: usize;
    match device_object_position(root_children) {
        None => {
            proof {
                assert(spec_storage_objects(root, pat) =~= Seq::<ObjectEntryView>::empty());
                assert(info_views(objects@) =~= Seq::new(
                    spec_storage_objects(root, pat).len(),
                    |i: int| spec_storage_objects(root, pat)[i].info,
                ));
            }
            return objects;
        },
        Some(i) => {
            device_obj_index = i;
        },
    }
    let name_pattern = match pattern {
        Some(p) => FileNamePattern::new(p),
        None => FileNamePattern::new("*"),
    };
    proof {
        reveal_strlit("*");
        assert("*"@ =~= seq!['*']);
        assert(name_pattern@ == pat);
    }
    let device_children = &root_children[device_obj_index].children;
    let ghost dc = object_views(device_children@);
    proof {
        lemma_object_views(device_children@);
        assert(dc == root[spec_device_object_index(root)].children);
    }
    let n = device_children.len();
    proof {
        assert(dc.take(0) =~= Seq::<ObjectEntryView>::empty());
        assert(spec_storage_matches(dc.take(0), pat) =~= Seq::<ObjectEntryView>::empty());
        assert(info_views(objects@) =~= Seq::new(
            spec_storage_matches(dc.take(0), pat).len(),
            |i: int| spec_storage_matches(dc.take(0), pat)[i].info,
        ));
    }
    for i in 0..n
        invariant
            n == device_children@.len(),
            dc == object_views(device_children@),
            dc.len() == n,
            forall|j: int| 0 <= j < n ==> dc[j] == object_view(device_children@[j]),
            pat == name_pattern@,
            info_views(objects@) =~= Seq::new(
                spec_storage_matches(dc.take(i as int), pat).len(),
                |k: int| spec_storage_matches(dc.take(i as int), pat)[k].info,
            ),
    {
        let ghost before = info_views(objects@);
        let entry = &device_children[i];
        if entry.info.is_storage() && name_pattern.matches(entry.info.name.as_str()) {
            objects.push(entry.info.clone());
        }
        proof {
            assert(dc[i as int] == object_view(device_children@[i as int]));
            assert(dc[i as int].info == device_children@[i as int].info@);
            lemma_storage_matches_push(dc.take(i as int), dc[i as int], pat);
            assert(dc.take(i + 1) =~= dc.take(i as int).push(dc[i as int]));
            if dc[i as int].info.functional_object_category is Storage && glob_match(
                dc[i as int].info.name,
                pat,
            ) {
                assert(info_views(objects@) =~= before.push(dc[i as int].info));
            } else {
                assert(info_views(objects@) =~= before);
            }
            assert(info_views(objects@) =~= Seq::new(
                spec_storage_matches(dc.take(i + 1), pat).len(),
                |k: int| spec_storage_matches(dc.take(i + 1), pat)[k].info,
            ));
        }
    }
    proof {
        assert(dc.take(n as int) =~= dc);
        assert(spec_storage_objects(root, pat) == spec_storage_matches(dc, pat));
    }
    objects
}

/// The abstract values of a device snapshot list.
pub open spec fn snapshot_views(s: Seq<DeviceSnapshot>) -> Seq<crate::object_tree::DeviceSnapshotView> {
    Seq::new(s.len(), |i: int| s[i]@)
}

/// The connected devices whose name matches the pattern, in order.
pub open spec fn spec_matching_snapshots(
    s: Seq<crate::object_tree::DeviceSnapshotView>,
    pat: Seq<char>,
) -> Seq<crate::object_tree::DeviceSnapshotView>
    decreases s.len(),
{
    if s.len() == 0 {
        Seq::empty()
    } else if glob_match(s[0].name, pat) {
        seq![s[0]] + spec_matching_snapshots(s.skip(1), pat)
    } else {
        spec_matching_snapshots(s.skip(1), pat)
    }
}

proof fn lemma_matching_snapshots_push(
    s: Seq<crate::object_tree::DeviceSnapshotView>,
    x: crate::object_tree::DeviceSnapshotView,
    pat: Seq<char>,
)
    ensures
        glob_match(x.name, pat) ==> spec_matching_snapshots(s.push(x), pat)
            =~= spec_matching_snapshots(s, pat).push(x),
        !glob_match(x.name, pat) ==> spec_matching_snapshots(s.push(x), pat)
            =~= spec_matching_snapshots(s, pat),
    decreases s.len(),
{
    if s.len() == 0 {
        assert(s.push(x)[0] == x);
        assert(s.push(x).skip(1) =~= Seq::<crate::object_tree::DeviceSnapshotView>::empty());
        assert(spec_matching_snapshots(
            Seq::<crate::object_tree::DeviceSnapshotView>::empty(),
            pat,
        ) =~= Seq::<crate::object_tree::DeviceSnapshotView>::empty());
    } else {
        assert(s.push(x)[0] == s[0]);
        assert(s.push(x).skip(1) =~= s.skip(1).push(x));
        lemma_matching_snapshots_push(s.skip(1), x, pat);
    }
}

/// Copies a device snapshot, its whole object tree included.
pub fn clone_snapshot(d: &DeviceSnapshot) -> (r: DeviceSnapshot)
    ensures
        r@ == d@,
{
    let info = d.info.clone();
    let mut content: Vec<ObjectEntry> = Vec::new();
    let n = d.content.len();
    proof {
        lemma_object_views(d.content@);
    }
    let mut i: usize = 0;
    while i < n
        invariant
            i <= n,
            n == d.content@.len(),
            object_views(content@) =~= object_views(d.content@).take(i as int),
            forall|j: int| 0 <= j < n ==> object_views(d.content@)[j] == object_view(d.content@[j]),
            object_views(d.content@).len() == n,
        decreases n - i,
    {
        let ghost old_content = content@;
        let c = clone_object_entry(&d.content[i]);
        content.push(c);
        proof {
            crate::object_tree::lemma_object_views_push(old_content, c);
            assert(object_views(content@) =~= object_views(d.content@).take(i + 1));
        }
        i = i + 1;
    }
    proof {
        assert(object_views(d.content@).take(n as int) =~= object_views(d.content@));
    }
    DeviceSnapshot { info, content }
}

/// The connected devices whose name matches the pattern, as snapshots.
pub fn matching_snapshots(devices: &Vec<DeviceSnapshot>, pattern: &str) -> (r: Vec<DeviceSnapshot>)
    ensures
        snapshot_views(r@) == spec_matching_snapshots(snapshot_views(devices@), pattern@),
{
    let ghost sv = snapshot_views(devices@);
    let ghost pat = pattern@;
    let name_pattern = FileNamePattern::new(pattern);
    let mut out: Vec<DeviceSnapshot> = Vec::new();
    let n = devices.len();
    proof {
        assert(sv.take(0) =~= Seq::<crate::object_tree::DeviceSnapshotView>::empty());
        assert(snapshot_views(out@) =~= spec_matching_snapshots(sv.take(0), pat));
    }
    let mut i: usize = 0;
    while i < n
        invariant
            i <= n,
            n == devices@.len(),
            sv == snapshot_views(devices@),
            sv.len() == n,
            pat == name_pattern@,
            snapshot_views(out@) =~= spec_matching_snapshots(sv.take(i as int), pat),
        decreases n - i,
    {
        let ghost out_before = snapshot_views(out@);
        if name_pattern.matches(devices[i].info.name.as_str()) {
            let copy = clone_snapshot(&devices[i]);
            out.push(copy);
        }
        proof {
            assert(sv[i as int] == devices@[i as int]@);
            lemma_matching_snapshots_push(sv.take(i as int), sv[i as int], pat);
            assert(sv.take(i + 1) =~= sv.take(i as int).push(sv[i as int]));
            if glob_match(sv[i as int].name, pat) {
                assert(snapshot_views(out@) =~= out_before.push(sv[i as int]));
            } else {
                assert(snapshot_views(out@) =~= out_before);
            }
        }
        i = i + 1;
    }
    proof {
        assert(sv.take(n as int) =~= sv);
    }
    out
}

/// The storage volumes under the device object whose name matches the
/// pattern, as whole subtrees.
pub fn matching_storage_entries(root_children: &Vec<ObjectEntry>, pattern: &str) -> (r: Vec<
    ObjectEntry,
>)
    ensures
        object_views(r@) == spec_storage_objects(object_views(root_children@), pattern@),
{
    let ghost root = object_views(root_children@);
    let ghost pat = pattern@;
    proof {
        lemma_object_views(root_children@);
        lemma_device_object_index(root);
    }
    let mut out: Vec<ObjectEntry> = Vec::new();
    let device_obj_index: usize;
    match device_object_position(root_children) {
        None => {
            proof {
                assert(spec_storage_objects(root, pat) =~= Seq::<ObjectEntryView>::empty());
                assert(object_views(out@) =~= Seq::<ObjectEntryView>::empty());
            }
            return out;
        },
        Some(i) => {
            device_obj_index = i;
        },
    }
    let name_pattern = FileNamePattern::new(pattern);
    let device_children = &root_children[device_obj_index].children;
    let ghost dc = object_views(device_children@);
    proof {
        lemma_object_views(device_children@);
        assert(dc == root[spec_device_object_index(root)].children);
    }
    let n = device_children.len();
    proof {
        assert(dc.take(0) =~= Seq::<ObjectEntryView>::empty());
        assert(spec_storage_matches(dc.take(0), pat) =~= Seq::<ObjectEntryView>::empty());
        assert(object_views(out@) =~= spec_storage_matches(dc.take(0), pat));
    }
    let mut i: usize = 0;
    while i < n
        invariant
            i <= n,
            n == device_children@.len(),
            dc == object_views(device_children@),
            dc.len() == n,
            forall|j: int| 0 <= j < n ==> dc[j] == object_view(device_children@[j]),
            pat == name_pattern@,
            device_obj_index == spec_device_object_index(root),
            root == object_views(root_children@),
            dc == root[device_obj_index as int].children,
            object_views(out@) =~= spec_storage_matches(dc.take(i as int), pat),
        decreases n - i,
    {
        let ghost out_before = object_views(out@);
        let ghost out_seq_before = out@;
        let entry = &device_children[i];
        if entry.info.is_storage() && name_pattern.matches(entry.info.name.as_str()) {
            let copy = clone_object_entry(entry);
            out.push(copy);
            proof {
                crate::object_tree::lemma_object_views_push(out_seq_before, copy);
            }
        }
        proof {
            assert(dc[i as int] == object_view(device_children@[i as int]));
            assert(dc[i as int].info == device_children@[i as int].info@);
            lemma_storage_matches_push(dc.take(i as int), dc[i as int], pat);
            assert(dc.take(i + 1) =~= dc.take(i as int).push(dc[i as int]));
            if dc[i as int].info.functional_object_category is Storage && glob_match(
                dc[i as int].info.name,
                pat,
            ) {
                assert(object_views(out@) =~= out_before.push(dc[i as int]));
            } else {
                assert(object_views(out@) =~= out_before);
            }
        }
        i = i + 1;
    }
    proof {
        assert(dc.take(n as int) =~= dc);
        assert(spec_storage_objects(root, pat) == spec_storage_matches(dc, pat));
    }
    out
}

/// Resolves a parsed address to its one device and one storage volume.
/// The device name pattern must match exactly one connected device, and
/// the storage name pattern exactly one of its storage volumes; no match
/// is `NotFound` and more than one is `Ambiguous`.
pub fn find_device_storage(devices: &Vec<DeviceSnapshot>, storage_path: &DeviceStoragePath) -> (r:
    Result<(DeviceInfo, ObjectEntry), AppError>)
    ensures
        ({
            let matching = spec_matching_snapshots(
                snapshot_views(devices@),
                storage_path.device_name@,
            );
            match r {
                Ok((info, storage)) => {
                    &&& matching.len() == 1
                    &&& info@.name == matching[0].name
                    &&& info@.id == matching[0].id
                    &&& {
                        let st = spec_storage_objects(
                            matching[0].content,
                            storage_path.storage_name@,
                        );
                        st.len() == 1 && object_view(storage) == st[0]
                    }
                },
                Err(e) => {
                    &&& (e.kind == ErrorKind::NotFound || e.kind == ErrorKind::Ambiguous)
                    &&& (e.kind == ErrorKind::NotFound <==> (matching.len() == 0 || (matching.len()
                        == 1 && spec_storage_objects(
                        matching[0].content,
                        storage_path.storage_name@,
                    ).len() == 0)))
                    &&& (e.kind == ErrorKind::Ambiguous <==> (matching.len() > 1 || (matching.len()
                        == 1 && spec_storage_objects(
                        matching[0].content,
                        storage_path.storage_name@,
                    ).len() > 1)))
                },
            }
        }),
{
    let ghost matching = spec_matching_snapshots(
        snapshot_views(devices@),
        storage_path.device_name@,
    );
    let mut matched = matching_snapshots(devices, storage_path.device_name.as_str());
    proof {
        assert(snapshot_views(matched@).len() == matched@.len());
    }
    if matched.len() == 0 {
        return Err(AppError::new(ErrorKind::NotFound, "device was not found."));
    }
    if matched.len() > 1 {
        return Err(AppError::new(ErrorKind::Ambiguous, "multiple devices were matched."));
    }
    let ghost old_matched = matched@;
    let device = matched.remove(0);
    proof {
        assert(device == old_matched[0]);
        assert(snapshot_views(old_matched)[0] == old_matched[0]@);
        assert(device@ == matching[0]);
    }
    let mut storages = matching_storage_entries(
        &device.content,
        storage_path.storage_name.as_str(),
    );
    proof {
        assert(object_views(device.content@) == device@.content);
        assert(device@.content == matching[0].content);
    }
    proof {
        lemma_object_views(storages@);
    }
    if storages.len() == 0 {
        return Err(AppError::new(ErrorKind::NotFound, "storage was not found."));
    }
    if storages.len() > 1 {
        return Err(AppError::new(ErrorKind::Ambiguous, "multiple storages were matched."));
    }
    let ghost st = spec_storage_objects(matching[0].content, storage_path.storage_name@);
    let ghost old_storages = storages@;
    let storage = storages.remove(0);
    proof {
        assert(storage == old_storages[0]);
        assert(object_views(old_storages)[0] == object_view(old_storages[0]));
        assert(object_view(storage) == st[0]);
    }
    Ok((device.info.clone(), storage))
}

/// Joins a path and one more component with a backslash.
pub fn join_path(base_path: &str, sub_path: &str) -> (r: String)
    ensures
        r@ == base_path@ + seq!['\\'] + sub_path@,
{
    let mut s = base_path.to_owned();
    push_char(&mut s, '\\');
    s.append(sub_path);
    proof {
        assert(s@ =~= base_path@ + seq!['\\'] + sub_path@);
    }
    s
}

/// The abstract values of a match list: each found object with the full
/// display path it was found under.
pub open spec fn results_view(s: Seq<(ContentObjectInfo, String)>) -> Seq<
    (ContentObjectInfoView, Seq<char>),
> {
    Seq::new(s.len(), |i: int| (s[i].0@, s[i].1@))
}

/// Every file or folder in the first `n` subtrees, with its path, in
/// depth-first order.
pub open spec fn spec_dump_entries(
    children: Seq<ObjectEntryView>,
    n: int,
    base: Seq<char>,
) -> Seq<(ContentObjectInfoView, Seq<char>)>
    decreases children, n,
{
    if n <= 0 || n > children.len() {
        Seq::empty()
    } else {
        spec_dump_entries(children, n - 1, base) + spec_dump_entry(children[n - 1], base)
    }
}

/// One subtree's files and folders with their paths: plumbing objects
/// contribute nothing.
pub open spec fn spec_dump_entry(e: ObjectEntryView, base: Seq<char>) -> Seq<
    (ContentObjectInfoView, Seq<char>),
>
    decreases e,
{
    if e.info.content_type is FunctionalObject {
        Seq::empty()
    } else {
        let path = base + seq!['\\'] + e.info.name;
        seq![(e.info, path)] + spec_dump_entries(e.children, e.children.len() as int, path)
    }
}

/// The matches the walk finds under the first `n` entries, in order.
pub open spec fn spec_iterate_entries(
    children: Seq<ObjectEntryView>,
    n: int,
    chain: Seq<crate::pathmatch::MatcherNode>,
    base: Seq<char>,
    recursive: bool,
) -> Seq<(ContentObjectInfoView, Seq<char>)>
    decreases children, n,
{
    if n <= 0 || n > children.len() {
        Seq::empty()
    } else {
        spec_iterate_entries(children, n - 1, chain, base, recursive) + spec_iterate_entry(
            children[n - 1],
            chain,
            base,
            recursive,
        )
    }
}

/// What one entry contributes to the walk: nothing when the matcher
/// rejects it or it is a plumbing object; itself when the matcher
/// completes on it, with its whole subtree after it when the walk is
/// recursive; and its children's matches when the matcher accepts it.
pub open spec fn spec_iterate_entry(
    e: ObjectEntryView,
    chain: Seq<crate::pathmatch::MatcherNode>,
    base: Seq<char>,
    recursive: bool,
) -> Seq<(ContentObjectInfoView, Seq<char>)>
    decreases e,
{
    if e.info.content_type is FunctionalObject {
        Seq::empty()
    } else {
        let is_dir = e.info.content_type is Folder;
        let m = crate::pathmatch::spec_match_nodes(chain, e.info.name, is_dir);
        let path = base + seq!['\\'] + e.info.name;
        match m.0 {
            PathMatchingState::Rejected => Seq::empty(),
            PathMatchingState::Completed => seq![(e.info, path)] + if recursive {
                spec_dump_entries(e.children, e.children.len() as int, path)
            } else {
                Seq::empty()
            },
            PathMatchingState::Accepted => spec_iterate_entries(
                e.children,
                e.children.len() as int,
                m.1,
                path,
                recursive,
            ),
        }
    }
}

/// What the walk over a storage volume finds: an empty pattern denotes
/// the storage root itself; otherwise the pattern is matched against the
/// storage's children.
pub open spec fn spec_iterate_storage(
    storage: ObjectEntryView,
    prefix: Seq<char>,
    chain: Seq<crate::pathmatch::MatcherNode>,
    recursive: bool,
) -> Seq<(ContentObjectInfoView, Seq<char>)> {
    if chain.len() == 0 {
        seq![(storage.info, prefix + seq!['\\'])] + if recursive {
            spec_dump_entries(storage.children, storage.children.len() as int, prefix)
        } else {
            Seq::empty()
        }
    } else {
        spec_iterate_entries(storage.children, storage.children.len() as int, chain, prefix, recursive)
    }
}

/// Dumps one subtree.
fn dump_entry(e: &ObjectEntry, base: &str) -> (r: Vec<(ContentObjectInfo, String)>)
    ensures
        results_view(r@) == spec_dump_entry(object_view(*e), base@),
    decreases *e,
{
    let mut out: Vec<(ContentObjectInfo, String)> = Vec::new();
    if e.info.is_functional_object() {
        proof {
            assert(results_view(out@) =~= spec_dump_entry(object_view(*e), base@));
        }
        return out;
    }
    let path = join_path(base, e.info.name.as_str());
    out.push((e.info.clone(), path.clone()));
    let mut rest = dump_entries(&e.children, path.as_str());
    let ghost out_before = results_view(out@);
    let ghost rest_view = results_view(rest@);
    out.append(&mut rest);
    proof {
        let ev = object_view(*e);
        lemma_object_views(e.children@);
        assert(ev.info == e.info@);
        assert(ev.children == object_views(e.children@));
        assert(out_before =~= seq![(e.info@, base@ + seq!['\\'] + e.info.name@)]);
        assert(results_view(out@) =~= out_before + rest_view);
        assert(results_view(out@) =~= spec_dump_entry(ev, base@));
    }
    out
}

/// Dumps all subtrees.
fn dump_entries(children: &Vec<ObjectEntry>, base: &str) -> (r: Vec<(ContentObjectInfo, String)>)
    ensures
        results_view(r@) == spec_dump_entries(
            object_views(children@),
            children@.len() as int,
            base@,
        ),
    decreases children@,
{
    let ghost cv = object_views(children@);
    proof {
        lemma_object_views(children@);
    }
    let mut out: Vec<(ContentObjectInfo, String)> = Vec::new();
    let n = children.len();
    proof {
        assert(results_view(out@) =~= spec_dump_entries(cv, 0, base@));
    }
    let mut i: usize = 0;
    while i < n
        invariant
            i <= n,
            n == children@.len(),
            cv == object_views(children@),
            cv.len() == n,
            forall|j: int| 0 <= j < n ==> cv[j] == object_view(children@[j]),
            results_view(out@) =~= spec_dump_entries(cv, i as int, base@),
        decreases n - i,
    {
        let mut part = dump_entry(&children[i], base);
        let ghost out_before = results_view(out@);
        let ghost part_view = results_view(part@);
        out.append(&mut part);
        proof {
            assert(results_view(out@) =~= out_before + part_view);
            assert(results_view(out@) =~= spec_dump_entries(cv, i + 1, base@));
        }
        i = i + 1;
    }
    out
}

/// Walks one entry with the matcher.
fn iterate_entry(
    e: &ObjectEntry,
    matcher: &crate::pathmatch::PathMatcher,
    base: &str,
    recursive: bool,
) -> (r: Vec<(ContentObjectInfo, String)>)
    ensures
        results_view(r@) == spec_iterate_entry(
            object_view(*e),
            crate::pathmatch::node_chain_view(*matcher),
            base@,
            recursive,
        ),
    decreases *e,
{
    let ghost ev = object_view(*e);
    let ghost chain = crate::pathmatch::node_chain_view(*matcher);
    let mut out: Vec<(ContentObjectInfo, String)> = Vec::new();
    if e.info.is_functional_object() {
        proof {
            assert(results_view(out@) =~= spec_iterate_entry(ev, chain, base@, recursive));
        }
        return out;
    }
    let is_dir = e.info.is_folder();
    let (state, next_matcher) = matcher.matches(e.info.name.as_str(), is_dir);
    proof {
        crate::pathmatch::lemma_match_agrees(*matcher, e.info.name@, is_dir);
        lemma_object_views(e.children@);
        assert(ev.info == e.info@);
        assert(ev.children == object_views(e.children@));
        assert(is_dir == (ev.info.content_type is Folder));
        assert(state == crate::pathmatch::spec_match_nodes(chain, ev.info.name, is_dir).0);
    }
    match state {
        PathMatchingState::Rejected => {
            proof {
                assert(results_view(out@) =~= spec_iterate_entry(ev, chain, base@, recursive));
            }
            out
        },
        PathMatchingState::Completed => {
            let path = join_path(base, e.info.name.as_str());
            out.push((e.info.clone(), path.clone()));
            proof {
                assert(results_view(out@) =~= seq![(e.info@, base@ + seq!['\\'] + e.info.name@)]);
            }
            if recursive {
                let mut rest = dump_entries(&e.children, path.as_str());
                let ghost out_before = results_view(out@);
                let ghost rest_view = results_view(rest@);
                out.append(&mut rest);
                proof {
                    assert(results_view(out@) =~= out_before + rest_view);
                }
            }
            proof {
                assert(results_view(out@) =~= spec_iterate_entry(ev, chain, base@, recursive));
            }
            out
        },
        PathMatchingState::Accepted => {
            let path = join_path(base, e.info.name.as_str());
            proof {
                crate::pathmatch::lemma_accepted_has_continuation(*matcher, e.info.name@, is_dir);
            }
            match next_matcher {
                Some(nm) => {
                    let rest = iterate_entries(&e.children, nm, path.as_str(), recursive);
                    proof {
                        assert(*nm == crate::pathmatch::spec_match(
                            *matcher,
                            e.info.name@,
                            is_dir,
                        ).1->Some_0);
                        assert(crate::pathmatch::node_chain_view(*nm)
                            == crate::pathmatch::spec_match_nodes(chain, ev.info.name, is_dir).1);
                        assert(results_view(rest@) =~= spec_iterate_entry(
                            ev,
                            chain,
                            base@,
                            recursive,
                        ));
                    }
                    rest
                },
                None => {
                    proof {
                        assert(false);
                    }
                    out
                },
            }
        },
    }
}

/// Walks all entries with the matcher.
fn iterate_entries(
    children: &Vec<ObjectEntry>,
    matcher: &crate::pathmatch::PathMatcher,
    base: &str,
    recursive: bool,
) -> (r: Vec<(ContentObjectInfo, String)>)
    ensures
        results_view(r@) == spec_iterate_entries(
            object_views(children@),
            children@.len() as int,
            crate::pathmatch::node_chain_view(*matcher),
            base@,
            recursive,
        ),
    decreases children@,
{
    let ghost cv = object_views(children@);
    let ghost chain = crate::pathmatch::node_chain_view(*matcher);
    proof {
        lemma_object_views(children@);
    }
    let mut out: Vec<(ContentObjectInfo, String)> = Vec::new();
    let n = children.len();
    proof {
        assert(results_view(out@) =~= spec_iterate_entries(cv, 0, chain, base@, recursive));
    }
    let mut i: usize = 0;
    while i < n
        invariant
            i <= n,
            n == children@.len(),
            cv == object_views(children@),
            cv.len() == n,
            chain == crate::pathmatch::node_chain_view(*matcher),
            forall|j: int| 0 <= j < n ==> cv[j] == object_view(children@[j]),
            results_view(out@) =~= spec_iterate_entries(cv, i as int, chain, base@, recursive),
        decreases n - i,
    {
        let mut part = iterate_entry(&children[i], matcher, base, recursive);
        let ghost out_before = results_view(out@);
        let ghost part_view = results_view(part@);
        out.append(&mut part);
        proof {
            assert(results_view(out@) =~= out_before + part_view);
            assert(results_view(out@) =~= spec_iterate_entries(cv, i + 1, chain, base@, recursive));
        }
        i = i + 1;
    }
    out
}

/// Iterates the files or folders which are matching the specified path,
/// and returns each match with its full display path.  The path can be a
/// glob pattern; with `recursive`, everything beneath a match is listed
/// after it.
pub fn device_iterate_file_or_folder(
    device_info: &DeviceInfo,
    storage: &ObjectEntry,
    path: &str,
    recursive: bool,
) -> (r: Result<Vec<(ContentObjectInfo, String)>, AppError>)
    ensures
        r is Ok <==> crate::pathmatch::compile_ok(path@),
        r is Ok ==> results_view(r->Ok_0@) == spec_iterate_storage(
            object_view(*storage),
            device_info.name@ + seq![':'] + storage.info.name@ + seq![':'],
            crate::pathmatch::compiled_chain(path@),
            recursive,
        ),
        r is Err ==> r->Err_0.kind == ErrorKind::InvalidPath,
{
    let root_path_matcher = match crate::pathmatch::create_path_pattern_matcher(path) {
        Ok(m) => m,
        Err(e) => {
            return Err(e);
        },
    };
    let mut storage_path = device_info.name.clone();
    push_char(&mut storage_path, ':');
    storage_path.append(storage.info.name.as_str());
    push_char(&mut storage_path, ':');
    let ghost prefix = device_info.name@ + seq![':'] + storage.info.name@ + seq![':'];
    proof {
        assert(storage_path@ =~= prefix);
    }
    proof {
        lemma_object_views(storage.children@);
        assert(object_view(*storage).children == object_views(storage.children@));
    }
    let (state, next_matcher) = root_path_matcher.matches_root();
    match state {
        PathMatchingState::Completed => {
            proof {
                assert(root_path_matcher@ == crate::pathmatch::compiled_chain(path@));
                assert(root_path_matcher@.len() == 0);
            }
            let mut out: Vec<(ContentObjectInfo, String)> = Vec::new();
            let mut root_path = storage_path.clone();
            push_char(&mut root_path, '\\');
            proof {
                assert(root_path@ =~= prefix + seq!['\\']);
            }
            out.push((storage.info.clone(), root_path));
            proof {
                assert(results_view(out@) =~= seq![(storage.info@, prefix + seq!['\\'])]);
            }
            if recursive {
                let mut rest = dump_entries(&storage.children, storage_path.as_str());
                let ghost out_before = results_view(out@);
                let ghost rest_view = results_view(rest@);
                out.append(&mut rest);
                proof {
                    assert(results_view(out@) =~= out_before + rest_view);
                }
            }
            proof {
                assert(object_view(*storage).children == object_views(storage.children@));
                assert(results_view(out@) =~= spec_iterate_storage(
                    object_view(*storage),
                    prefix,
                    crate::pathmatch::compiled_chain(path@),
                    recursive,
                ));
            }
            Ok(out)
        },
        PathMatchingState::Accepted => {
            proof {
                assert(root_path_matcher@ == crate::pathmatch::compiled_chain(path@));
                assert(root_path_matcher@.len() > 0);
            }
            match next_matcher {
                Some(m) => {
                    let out = iterate_entries(&storage.children, m, storage_path.as_str(), recursive);
                    proof {
                        assert(*m == root_path_matcher.spec_first()->Some_0);
                        assert(crate::pathmatch::node_chain_view(*m)
                            == crate::pathmatch::compiled_chain(path@));
                        assert(object_view(*storage).children == object_views(storage.children@));
                        assert(results_view(out@) =~= spec_iterate_storage(
                            object_view(*storage),
                            prefix,
                            crate::pathmatch::compiled_chain(path@),
                            recursive,
                        ));
                    }
                    Ok(out)
                },
                None => {
                    proof {
                        assert(false);
                    }
                    Ok(Vec::new())
                },
            }
        },
        PathMatchingState::Rejected => {
            proof {
                assert(false);
            }
            Ok(Vec::new())
        },
    }
}

/// Returns the first object matching the specified path, with its full
/// display path, or `None` when nothing matches.  The path can be a glob
/// pattern.
pub fn device_find_file_or_folder(
    device_info: &DeviceInfo,
    storage: &ObjectEntry,
    path: &str,
) -> (r: Result<Option<(ContentObjectInfo, String)>, AppError>)
    ensures
        r is Ok <==> crate::pathmatch::compile_ok(path@),
        r is Err ==> r->Err_0.kind == ErrorKind::InvalidPath,
        r is Ok ==> ({
            let all = spec_iterate_storage(
                object_view(*storage),
                device_info.name@ + seq![':'] + storage.info.name@ + seq![':'],
                crate::pathmatch::compiled_chain(path@),
                false,
            );
            match r->Ok_0 {
                None => all.len() == 0,
                Some(found) => all.len() > 0 && found.0@ == all[0].0 && found.1@ == all[0].1,
            }
        }),
{
    let mut all = match device_iterate_file_or_folder(device_info, storage, path, false) {
        Ok(v) => v,
        Err(e) => {
            return Err(e);
        },
    };
    if all.len() == 0 {
        return Ok(None);
    }
    let ghost all_before = all@;
    let first = all.remove(0);
    proof {
        assert(first == all_before[0]);
        assert(results_view(all_before)[0] == (all_before[0].0@, all_before[0].1@));
    }
    Ok(Some(first))
}

/// Finds the position of the device functional object.
fn device_object_position(root_children: &Vec<ObjectEntry>) -> (r: Option<usize>)
    ensures
        match r {
            Some(i) => i < root_children@.len() && i == spec_device_object_index(
                object_views(root_children@),
            ),
            None => spec_device_object_index(object_views(root_children@)) < 0,
        },
{
    let ghost ov = object_views(root_children@);
    proof {
        lemma_object_views(root_children@);
        lemma_device_object_index(ov);
    }
    let n = root_children.len();
    for i in 0..n
        invariant
            n == root_children@.len(),
            ov == object_views(root_children@),
            ov.len() == n,
            forall|j: int| 0 <= j < n ==> ov[j] == object_view(root_children@[j]),
            forall|j: int| 0 <= j < i ==> !(ov[j].info.functional_object_category is Device),
            spec_device_object_index(ov) >= 0 ==> spec_device_object_index(ov) < n
                && ov[spec_device_object_index(ov)].info.functional_object_category is Device,
            spec_device_object_index(ov) >= 0 ==> forall|j: int|
                0 <= j < spec_device_object_index(ov) ==> !(
                ov[j].info.functional_object_category is Device),
            spec_device_object_index(ov) < 0 ==> forall|j: int|
                0 <= j < n ==> !(ov[j].info.functional_object_category is Device),
    {
        if root_children[i].info.is_device() {
            proof {
                let k = spec_device_object_index(ov);
                assert(ov[i as int].info.functional_object_category is Device);
                if k < 0 || k < i || k > i {
                    assert(false);
                }
            }
            return Some(i);
        }
    }
    proof {
        let k = spec_device_object_index(ov);
        if k >= 0 {
            assert(ov[k].info.functional_object_category is Device);
            assert(false);
        }
    }
    None
}

} // verus!
