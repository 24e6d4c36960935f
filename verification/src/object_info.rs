use vstd::prelude::*;

use crate::timestamp::Timestamp;

verus! {

/// Opaque identifier of one node in a device's object tree.  It is just
/// a key, cloned freely and never interpreted.
#[derive(Debug)]
pub struct ContentObject {
    pub id: String,
}

impl View for ContentObject {
    type V = Seq<char>;

    open spec fn view(&self) -> Seq<char> {
        self.id@
    }
}

impl ContentObject {
    /// Wraps an object identifier.
    pub fn new(id: String) -> (r: ContentObject)
        ensures
            r@ == id@,
    {
        ContentObject { id }
    }
}

impl Clone for ContentObject {
    fn clone(&self) -> (r: ContentObject)
        ensures
            r@ == self@,
    {
        ContentObject { id: self.id.clone() }
    }
}

/// The content-type tag of a device object.
#[derive(Debug, Clone, Copy, PartialEq, Eq, Structural)]
pub enum ContentType {
    /// Device-level structure rather than user data.
    FunctionalObject,
    /// A folder.
    Folder,
    /// Anything else: a data object, treated as a file.
    Data,
}

/// The category tag of a functional object.
#[derive(Debug, Clone, Copy, PartialEq, Eq, Structural)]
pub enum FunctionalCategory {
    /// The device object itself, parent of the storage volumes.
    Device,
    /// One storage volume.
    Storage,
    /// Another functional category, or not a functional object at all.
    Other,
}

/// The abstract value of a `ContentObjectInfo`.
pub struct ContentObjectInfoView {
    pub content_object: Seq<char>,
    pub name: Seq<char>,
    pub content_type: ContentType,
    pub functional_object_category: FunctionalCategory,
    pub data_size: Option<u64>,
    pub is_hidden: bool,
    pub is_system: bool,
    pub can_delete: bool,
    pub time_created: Option<Timestamp>,
    pub time_modified: Option<Timestamp>,
}

/// Metadata snapshot of one device object.
#[derive(Debug)]
pub struct ContentObjectInfo {
    pub content_object: ContentObject,
    /// Name to display
    pub name: String,
    /// Content type tag
    pub content_type: ContentType,
    /// Category of the functional object.
    /// `Other` if the object was not a functional object.
    pub functional_object_category: FunctionalCategory,
    /// Size of the resource data (or None if not provided)
    pub data_size: Option<u64>,
    /// Hidden flag
    pub is_hidden: bool,
    /// System flag
    pub is_system: bool,
    /// Whether the object can be deleted
    pub can_delete: bool,
    /// Time created (or None if not provided)
    pub time_created: Option<Timestamp>,
    /// Time modified (or None if not provided)
    pub time_modified: Option<Timestamp>,
}

impl View for ContentObjectInfo {
    type V = ContentObjectInfoView;

    open spec fn view(&self) -> ContentObjectInfoView {
        ContentObjectInfoView {
            content_object: self.content_object@,
            name: self.name@,
            content_type: self.content_type,
            functional_object_category: self.functional_object_category,
            data_size: self.data_size,
            is_hidden: self.is_hidden,
            is_system: self.is_system,
            can_delete: self.can_delete,
            time_created: self.time_created,
            time_modified: self.time_modified,
        }
    }
}

impl Clone for ContentObjectInfo {
    fn clone(&self) -> (r: ContentObjectInfo)
        ensures
            r@ == self@,
    {
        ContentObjectInfo {
            content_object: self.content_object.clone(),
            name: self.name.clone(),
            content_type: self.content_type,
            functional_object_category: self.functional_object_category,
            data_size: self.data_size,
            is_hidden: self.is_hidden,
            is_system: self.is_system,
            can_delete: self.can_delete,
            time_created: self.time_created,
            time_modified: self.time_modified,
        }
    }
}

impl ContentObjectInfo {
    /// Whether this object is device-level structure rather than data.
    pub open spec fn spec_is_functional_object(&self) -> bool {
        self.content_type is FunctionalObject
    }

    /// Whether this object is the device object.
    pub open spec fn spec_is_device(&self) -> bool {
        self.functional_object_category is Device
    }

    /// Whether this object is a storage volume.
    pub open spec fn spec_is_storage(&self) -> bool {
        self.functional_object_category is Storage
    }

    /// Whether this object is a folder.
    pub open spec fn spec_is_folder(&self) -> bool {
        self.content_type is Folder
    }

    /// Whether this object is a file: neither functional nor a folder.
    pub open spec fn spec_is_file(&self) -> bool {
        !self.spec_is_functional_object() && !self.spec_is_folder()
    }

    pub fn is_functional_object(&self) -> (r: bool)
        ensures
            r == self.spec_is_functional_object(),
    {
        matches!(self.content_type, ContentType::FunctionalObject)
    }

    pub fn is_device(&self) -> (r: bool)
        ensures
            r == self.spec_is_device(),
    {
        matches!(self.functional_object_category, FunctionalCategory::Device)
    }

    pub fn is_storage(&self) -> (r: bool)
        ensures
            r == self.spec_is_storage(),
    {
        matches!(self.functional_object_category, FunctionalCategory::Storage)
    }

    pub fn is_folder(&self) -> (r: bool)
        ensures
            r == self.spec_is_folder(),
    {
        matches!(self.content_type, ContentType::Folder)
    }

    pub fn is_file(&self) -> (r: bool)
        ensures
            r == self.spec_is_file(),
    {
        !self.is_functional_object() && !self.is_folder()
    }
}

/// The abstract value of a `DeviceInfo`.
pub struct DeviceInfoView {
    pub id: Seq<char>,
    pub name: Seq<char>,
}

/// Identity of one connected device: its identifier and friendly name.
#[derive(Debug)]
pub struct DeviceInfo {
    pub id: String,
    pub name: String,
}

impl View for DeviceInfo {
    type V = DeviceInfoView;

    open spec fn view(&self) -> DeviceInfoView {
        DeviceInfoView { id: self.id@, name: self.name@ }
    }
}

impl Clone for DeviceInfo {
    fn clone(&self) -> (r: DeviceInfo)
        ensures
            r.id@ == self.id@,
            r.name@ == self.name@,
    {
        DeviceInfo { id: self.id.clone(), name: self.name.clone() }
    }
}

} // verus!
