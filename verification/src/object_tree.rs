use vstd::prelude::*;

use crate::fs_model::copy_bytes;
use crate::object_info::ContentObjectInfo;
use crate::object_info::ContentObjectInfoView;
use crate::object_info::DeviceInfo;

verus! {

/// The abstract value of a device object tree node.
pub struct ObjectEntryView {
    pub info: ContentObjectInfoView,
    pub content: Seq<u8>,
    pub children: Seq<ObjectEntryView>,
}

/// One node of a device's object tree: the object's metadata, its
/// resource data when it is a file, and its children.  This is the model
/// the device-side walks are verified against.
#[derive(Debug)]
pub struct ObjectEntry {
    pub info: ContentObjectInfo,
    pub content: Vec<u8>,
    pub children: Vec<ObjectEntry>,
}

/// The abstract value of an object tree node.
pub open spec fn object_view(e: ObjectEntry) -> ObjectEntryView
    decreases e,
{
    ObjectEntryView {
        info: e.info@,
        content: e.content@,
        children: object_views_upto(e.children@, e.children@.len() as int),
    }
}

/// The abstract values of the first `n` nodes.
pub open spec fn object_views_upto(s: Seq<ObjectEntry>, n: int) -> Seq<ObjectEntryView>
    decreases s, n,
{
    if n <= 0 || n > s.len() {
        Seq::empty()
    } else {
        object_views_upto(s, n - 1).push(object_view(s[n - 1]))
    }
}

/// The abstract values of a sequence of nodes.
pub open spec fn object_views(s: Seq<ObjectEntry>) -> Seq<ObjectEntryView> {
    object_views_upto(s, s.len() as int)
}

/// `object_views` is the pointwise image of `object_view`.
pub proof fn lemma_object_views(s: Seq<ObjectEntry>)
    ensures
        object_views(s).len() == s.len(),
        forall|i: int| 0 <= i < s.len() ==> object_views(s)[i] == object_view(s[i]),
{
    lemma_object_views_upto(s, s.len() as int);
}

proof fn lemma_object_views_upto(s: Seq<ObjectEntry>, n: int)
    requires
        0 <= n <= s.len(),
    ensures
        object_views_upto(s, n).len() == n,
        forall|i: int| 0 <= i < n ==> object_views_upto(s, n)[i] == object_view(s[i]),
    decreases n,
{
    if n > 0 {
        lemma_object_views_upto(s, n - 1);
    }
}

/// Copies one object tree node, its whole subtree included.
pub fn clone_object_entry(e: &ObjectEntry) -> (r: ObjectEntry)
    ensures
        object_view(r) == object_view(*e),
    decreases *e,
{
    let info = e.info.clone();
    let content = copy_bytes(&e.content);
    let mut children: Vec<ObjectEntry> = Vec::new();
    let n = e.children.len();
    proof {
        lemma_object_views(e.children@);
    }
    for i in 0..n
        invariant
            n == e.children@.len(),
            object_views(children@) =~= object_views(e.children@).take(i as int),
            forall|j: int|
                0 <= j < n ==> object_views(e.children@)[j] == object_view(e.children@[j]),
            object_views(e.children@).len() == n,
        decreases n - i,
    {
        let ghost old_children = children@;
        let c = clone_object_entry(&e.children[i]);
        children.push(c);
        proof {
            lemma_object_views_push(old_children, c);
            assert(object_views(children@) =~= object_views(e.children@).take(i + 1));
        }
    }
    let r = ObjectEntry { info, content, children };
    proof {
        assert(object_views(e.children@).take(n as int) =~= object_views(e.children@));
        assert(object_view(r).children == object_views(r.children@));
        assert(object_view(*e).children == object_views(e.children@));
    }
    r
}

/// Pushing a node extends the views by its view.
pub proof fn lemma_object_views_push(s: Seq<ObjectEntry>, x: ObjectEntry)
    ensures
        object_views(s.push(x)) =~= object_views(s).push(object_view(x)),
{
    lemma_object_views(s);
    lemma_object_views(s.push(x));
    assert(forall|i: int| 0 <= i < s.len() ==> s.push(x)[i] == s[i]);
    assert(s.push(x)[s.len() as int] == x);
}

/// What a device object stands for on the copy side: its metadata
/// normalized, its resource data as content, and its file and folder
/// children mapped in turn.  Plumbing objects among the children
/// contribute nothing, as the copy walk never visits them.
pub open spec fn object_as_entry(o: ObjectEntryView) -> crate::fs_model::FsEntryView
    decreases o,
{
    crate::fs_model::FsEntryView {
        info: crate::file_info::FileInfoView {
            name: o.info.name,
            data_size: o.info.data_size,
            is_folder: o.info.content_type is Folder,
            is_hidden: o.info.is_hidden,
            is_system: o.info.is_system,
            can_delete: o.info.can_delete,
            time_created: o.info.time_created,
            time_modified: o.info.time_modified,
        },
        content: o.content,
        children: objects_as_entries(o.children, o.children.len() as int),
    }
}

/// The first `n` children mapped to copy entries, plumbing objects
/// dropped.
pub open spec fn objects_as_entries(children: Seq<ObjectEntryView>, n: int) -> Seq<
    crate::fs_model::FsEntryView,
>
    decreases children, n,
{
    if n <= 0 || n > children.len() {
        Seq::empty()
    } else {
        let rest = objects_as_entries(children, n - 1);
        if children[n - 1].info.content_type is FunctionalObject {
            rest
        } else {
            rest.push(object_as_entry(children[n - 1]))
        }
    }
}

/// Maps one device file or folder, its subtree included, into the shape
/// the copy engine takes as its source.
pub fn object_to_fs_entry(o: &ObjectEntry) -> (r: crate::fs_model::FsEntry)
    requires
        !(object_view(*o).info.content_type is FunctionalObject),
    ensures
        crate::fs_model::view_of(r) == object_as_entry(object_view(*o)),
    decreases *o,
{
    let info = crate::file_info::FileInfo::from_content_object_info(&o.info);
    let content = crate::fs_model::copy_bytes(&o.content);
    let mut children: Vec<crate::fs_model::FsEntry> = Vec::new();
    let n = o.children.len();
    let ghost ov = object_views(o.children@);
    proof {
        lemma_object_views(o.children@);
        assert(crate::fs_model::views(children@)
            =~= Seq::<crate::fs_model::FsEntryView>::empty()) by {
            crate::fs_model::lemma_views(children@);
        }
    }
    let mut i: usize = 0;
    while i < n
        invariant
            i <= n,
            n == o.children@.len(),
            ov == object_views(o.children@),
            ov.len() == n,
            forall|j: int| 0 <= j < n ==> ov[j] == object_view(o.children@[j]),
            crate::fs_model::views(children@) =~= objects_as_entries(ov, i as int),
        decreases n - i,
    {
        let child = &o.children[i];
        if !child.info.is_functional_object() {
            let ghost old_children = children@;
            let mapped = object_to_fs_entry(child);
            children.push(mapped);
            proof {
                crate::fs_model::lemma_views_push(old_children, mapped);
            }
        }
        proof {
            assert(crate::fs_model::views(children@) =~= objects_as_entries(ov, i + 1));
        }
        i = i + 1;
    }
    let r = crate::fs_model::FsEntry { info, content, children };
    proof {
        assert(crate::fs_model::view_of(r).children == crate::fs_model::views(r.children@));
        assert(object_as_entry(object_view(*o)).children == objects_as_entries(ov, n as int));
    }
    r
}

/// The abstract value of a connected device.
pub struct DeviceSnapshotView {
    pub id: Seq<char>,
    pub name: Seq<char>,
    pub content: Seq<ObjectEntryView>,
}

/// One connected device: its identity and the children of its object
/// tree's root.
#[derive(Debug)]
pub struct DeviceSnapshot {
    pub info: DeviceInfo,
    pub content: Vec<ObjectEntry>,
}

impl View for DeviceSnapshot {
    type V = DeviceSnapshotView;

    open spec fn view(&self) -> DeviceSnapshotView {
        DeviceSnapshotView {
            id: self.info.id@,
            name: self.info.name@,
            content: object_views(self.content@),
        }
    }
}

} // verus!
