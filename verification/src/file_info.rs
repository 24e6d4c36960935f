use vstd::prelude::*;

use crate::object_info::ContentObjectInfo;
use crate::timestamp::Timestamp;
use crate::timestamp::later;
use crate::timestamp::spec_later;
use crate::timestamp::ts_le_truncated;
use crate::timestamp::timestamp_le_truncated;

verus! {

/// The abstract value of a `FileInfo`.
pub struct FileInfoView {
    pub name: Seq<char>,
    pub data_size: Option<u64>,
    pub is_folder: bool,
    pub is_hidden: bool,
    pub is_system: bool,
    pub can_delete: bool,
    pub time_created: Option<Timestamp>,
    pub time_modified: Option<Timestamp>,
}

/// Normalized metadata of one entry, the same shape for both backends.
#[derive(Debug)]
pub struct FileInfo {
    /// Name to display
    pub name: String,
    /// Size of the resource data (or None if not provided)
    pub data_size: Option<u64>,
    /// Whether this entry is a folder
    pub is_folder: bool,
    /// Hidden flag
    pub is_hidden: bool,
    /// System flag
    pub is_system: bool,
    /// Whether the object can be deleted
    pub can_delete: bool,
    /// Time created (or None if not provided)
    pub time_created: Option<Timestamp>,
    /// Time modified (or None if not provided)
    pub time_modified: Option<Timestamp>,
}

impl View for FileInfo {
    type V = FileInfoView;

    open spec fn view(&self) -> FileInfoView {
        FileInfoView {
            name: self.name@,
            data_size: self.data_size,
            is_folder: self.is_folder,
            is_hidden: self.is_hidden,
            is_system: self.is_system,
            can_delete: self.can_delete,
            time_created: self.time_created,
            time_modified: self.time_modified,
        }
    }
}

impl Clone for FileInfo {
    fn clone(&self) -> (r: FileInfo)
        ensures
            r@ == self@,
    {
        FileInfo {
            name: self.name.clone(),
            data_size: self.data_size,
            is_folder: self.is_folder,
            is_hidden: self.is_hidden,
            is_system: self.is_system,
            can_delete: self.can_delete,
            time_created: self.time_created,
            time_modified: self.time_modified,
        }
    }
}

impl FileInfo {
    /// Maps a device object's metadata to the normalized shape.
    pub fn from_content_object_info(info: &ContentObjectInfo) -> (r: FileInfo)
        ensures
            r@.name == info.name@,
            r@.data_size == info.data_size,
            r@.is_folder == info.spec_is_folder(),
            r@.is_hidden == info.is_hidden,
            r@.is_system == info.is_system,
            r@.can_delete == info.can_delete,
            r@.time_created == info.time_created,
            r@.time_modified == info.time_modified,
    {
        FileInfo {
            name: info.name.clone(),
            data_size: info.data_size,
            is_folder: info.is_folder(),
            is_hidden: info.is_hidden,
            is_system: info.is_system,
            can_delete: info.can_delete,
            time_created: info.time_created,
            time_modified: info.time_modified,
        }
    }
}

/// The time an entry counts as changed at: the later of its created and
/// modified times, or the one that is present, or nothing.
pub open spec fn spec_file_time(i: FileInfoView) -> Option<Timestamp> {
    match (i.time_created, i.time_modified) {
        (Some(c), Some(m)) => Some(spec_later(c, m)),
        (Some(c), None) => Some(c),
        (None, Some(m)) => Some(m),
        (None, None) => None,
    }
}

/// The skip rule: copying may be skipped only when both sides report a
/// size, the sizes are equal, both sides have a usable time, and the
/// source is not newer at second granularity.
pub open spec fn spec_can_skip(src: FileInfoView, dest: FileInfoView) -> bool {
    &&& src.data_size is Some
    &&& dest.data_size is Some
    &&& src.data_size == dest.data_size
    &&& spec_file_time(src) is Some
    &&& spec_file_time(dest) is Some
    &&& ts_le_truncated(spec_file_time(src)->Some_0, spec_file_time(dest)->Some_0)
}

fn get_file_time(file_info: &FileInfo) -> (r: Option<Timestamp>)
    ensures
        r == spec_file_time(file_info@),
{
    match (&file_info.time_created, &file_info.time_modified) {
        (Some(c), Some(m)) => Some(later(c, m)),
        (Some(c), None) => Some(*c),
        (None, Some(m)) => Some(*m),
        (None, None) => None,
    }
}

/// Decides whether copying a file may be skipped because the destination
/// already looks at least as fresh: sizes present and equal, and the
/// source's time not later than the destination's, sub-seconds ignored.
pub fn can_skip_copying(src_file_info: &FileInfo, dest_file_info: &FileInfo) -> (r: bool)
    ensures
        r == spec_can_skip(src_file_info@, dest_file_info@),
{
    let sizes_equal = match (&src_file_info.data_size, &dest_file_info.data_size) {
        (Some(s), Some(d)) => *s == *d,
        _ => false,
    };
    if !sizes_equal {
        return false;
    }
    if let Some(src_time) = get_file_time(src_file_info) {
        if let Some(dest_time) = get_file_time(dest_file_info) {
            return timestamp_le_truncated(&src_time, &dest_time);
        }
    }
    false
}

} // verus!
