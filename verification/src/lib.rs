mod commands;
mod copy_engine;
mod errors;
mod file_info;
mod filename;
mod finders;
mod fs_model;
mod local_model;
mod object_info;
mod object_tree;
mod path;
mod pathmatch;
mod split;
mod timestamp;

pub use errors::AppError;
pub use errors::ErrorKind;
pub use file_info::FileInfo;
pub use file_info::can_skip_copying;
pub use object_info::ContentObject;
pub use object_info::ContentObjectInfo;
pub use object_info::ContentType;
pub use object_info::DeviceInfo;
pub use object_info::FunctionalCategory;
pub use timestamp::Timestamp;
pub use filename::FileNamePattern;
pub use filename::matches_seq;
pub use path::DeviceStoragePath;
pub use path::PathType;
pub use path::Paths;
pub use path::get_path_type;
pub use pathmatch::PathMatcher;
pub use pathmatch::PathMatchingState;
pub use pathmatch::RootPathMatcher;
pub use pathmatch::create_path_pattern_matcher;
pub use fs_model::FsEntry;
pub use fs_model::find_entry;
pub use copy_engine::copy_hierarchy;
pub use copy_engine::copy_children;
pub use copy_engine::delete_unretained;
pub use copy_engine::clone_entry;
pub use finders::device_find_devices;
pub use finders::device_find_storage_objects;
pub use finders::device_find_device_object;
pub use finders::device_find_file_or_folder;
pub use finders::device_iterate_file_or_folder;
pub use finders::find_device_storage;
pub use finders::clone_snapshot;
pub use finders::join_path;
pub use commands::command_list_files;
pub use commands::has_wildcard;
pub use commands::plan_destination;
pub use commands::DestinationPlan;
pub use commands::TargetStatus;
pub use local_model::inspect_local_path;
pub use local_model::resolve_path;
pub use local_model::nonempty_components;
pub use local_model::copy_to_local_destination;
pub use local_model::children_at;
pub use local_model::update_children_at;
pub use object_tree::DeviceSnapshot;
pub use object_tree::ObjectEntry;
pub use object_tree::clone_object_entry;
pub use object_tree::object_to_fs_entry;
