use mtpcopy::AppError;
use mtpcopy::ContentObject;
use mtpcopy::ContentObjectInfo;
use mtpcopy::ContentType;
use mtpcopy::DeviceInfo;
use mtpcopy::DeviceSnapshot;
use mtpcopy::DeviceStoragePath;
use mtpcopy::DestinationPlan;
use mtpcopy::ErrorKind;
use mtpcopy::FunctionalCategory;
use mtpcopy::ObjectEntry;
use mtpcopy::PathType;
use mtpcopy::TargetStatus;
use mtpcopy::command_list_files;
use mtpcopy::device_find_devices;
use mtpcopy::device_find_device_object;
use mtpcopy::device_find_file_or_folder;
use mtpcopy::device_find_storage_objects;
use mtpcopy::device_iterate_file_or_folder;
use mtpcopy::find_device_storage;
use mtpcopy::has_wildcard;
use mtpcopy::join_path;
use mtpcopy::plan_destination;

fn object_info(id: &str, name: &str, content_type: ContentType, category: FunctionalCategory) -> ContentObjectInfo {
    ContentObjectInfo {
        content_object: ContentObject::new(id.to_string()),
        name: name.to_string(),
        content_type,
        functional_object_category: category,
        data_size: None,
        is_hidden: false,
        is_system: false,
        can_delete: true,
        time_created: None,
        time_modified: None,
    }
}

fn device_object(id: &str, children: Vec<ObjectEntry>) -> ObjectEntry {
    ObjectEntry {
        info: object_info(id, "Device", ContentType::FunctionalObject, FunctionalCategory::Device),
        content: Vec::new(),
        children,
    }
}

fn storage_object(id: &str, name: &str, children: Vec<ObjectEntry>) -> ObjectEntry {
    ObjectEntry {
        info: object_info(id, name, ContentType::FunctionalObject, FunctionalCategory::Storage),
        content: Vec::new(),
        children,
    }
}

fn folder_object(id: &str, name: &str, children: Vec<ObjectEntry>) -> ObjectEntry {
    ObjectEntry {
        info: object_info(id, name, ContentType::Folder, FunctionalCategory::Other),
        content: Vec::new(),
        children,
    }
}

fn file_object(id: &str, name: &str, content: &[u8]) -> ObjectEntry {
    let mut info = object_info(id, name, ContentType::Data, FunctionalCategory::Other);
    info.data_size = Some(content.len() as u64);
    ObjectEntry { info, content: content.to_vec(), children: Vec::new() }
}

fn phone(name: &str, storages: Vec<ObjectEntry>) -> DeviceSnapshot {
    DeviceSnapshot {
        info: DeviceInfo { id: format!("id-{}", name), name: name.to_string() },
        content: vec![device_object("dev-obj", storages)],
    }
}

fn picture_phone(name: &str) -> DeviceSnapshot {
    phone(
        name,
        vec![storage_object(
            "st1",
            "SD Card",
            vec![folder_object(
                "o1",
                "Pictures",
                vec![
                    folder_object("o2", "2021", vec![file_object("o3", "april.jpg", b"x")]),
                    file_object("o4", "index.txt", b"y"),
                ],
            )],
        )],
    )
}

#[test]
fn test_device_find_devices_by_pattern() {
    let devices = vec![
        DeviceInfo { id: "1".to_string(), name: "My Phone".to_string() },
        DeviceInfo { id: "2".to_string(), name: "Camera".to_string() },
    ];
    let matched = device_find_devices(&devices, Some("My*"));
    assert_eq!(matched.len(), 1);
    assert_eq!(matched[0].name, "My Phone");
    let all = device_find_devices(&devices, None);
    assert_eq!(all.len(), 2);
}

#[test]
fn test_device_find_device_object() {
    let dev = picture_phone("My Phone");
    let found = device_find_device_object(&dev.content).unwrap();
    assert_eq!(found.name, "Device");
    assert!(device_find_device_object(&Vec::new()).is_none());
}

#[test]
fn test_device_find_storage_objects() {
    let dev = picture_phone("My Phone");
    let storages = device_find_storage_objects(&dev.content, Some("SD*"));
    assert_eq!(storages.len(), 1);
    assert_eq!(storages[0].name, "SD Card");
    let none = device_find_storage_objects(&dev.content, Some("Internal*"));
    assert_eq!(none.len(), 0);
}

#[test]
fn test_find_device_storage_not_found() {
    // a listing address that matches no device is a NotFound error
    let devices = vec![picture_phone("My Phone")];
    let path = DeviceStoragePath::from("NoSuchDevice:*:\\").unwrap();
    let err = find_device_storage(&devices, &path).unwrap_err();
    assert_eq!(err.kind, ErrorKind::NotFound);
}

#[test]
fn test_find_device_storage_ambiguous() {
    // an address matching two distinct devices is an Ambiguous error
    let devices = vec![picture_phone("Phone A"), picture_phone("Phone B")];
    let path = DeviceStoragePath::from("Phone*:SD Card:\\").unwrap();
    let err = find_device_storage(&devices, &path).unwrap_err();
    assert_eq!(err.kind, ErrorKind::Ambiguous);
}

#[test]
fn test_find_device_storage_unique() {
    let devices = vec![picture_phone("My Phone")];
    let path = DeviceStoragePath::from("My*:SD*:\\Pictures").unwrap();
    let (info, storage) = find_device_storage(&devices, &path).unwrap();
    assert_eq!(info.name, "My Phone");
    assert_eq!(storage.info.name, "SD Card");
}

#[test]
fn test_device_iterate_exact_path() {
    let dev = picture_phone("My Phone");
    let storage = &dev.content[0].children[0];
    let matches =
        device_iterate_file_or_folder(&dev.info, storage, "\\Pictures\\2021\\april.jpg", false)
            .unwrap();
    assert_eq!(matches.len(), 1);
    assert_eq!(matches[0].1, "My Phone:SD Card:\\Pictures\\2021\\april.jpg");
}

#[test]
fn test_device_iterate_any_depth() {
    // ** matches zero directory levels as well as one or more
    let dev = phone(
        "P",
        vec![storage_object(
            "s",
            "S",
            vec![folder_object(
                "a",
                "a",
                vec![
                    file_object("f0", "b", b"0"),
                    folder_object("x", "x", vec![
                        file_object("f1", "b", b"1"),
                        folder_object("y", "y", vec![file_object("f2", "b", b"2")]),
                    ]),
                ],
            )],
        )],
    );
    let storage = &dev.content[0].children[0];
    let matches = device_iterate_file_or_folder(&dev.info, storage, "a/**/b", false).unwrap();
    let paths: Vec<&str> = matches.iter().map(|m| m.1.as_str()).collect();
    assert!(paths.contains(&"P:S:\\a\\b"));
    assert!(paths.contains(&"P:S:\\a\\x\\b"));
    assert!(paths.contains(&"P:S:\\a\\x\\y\\b"));
    assert_eq!(matches.len(), 3);
}

#[test]
fn test_device_iterate_wildcard_and_recursive() {
    let dev = picture_phone("My Phone");
    let storage = &dev.content[0].children[0];
    // the pattern matches the folder; recursive additionally dumps what is beneath it
    let matches = device_iterate_file_or_folder(&dev.info, storage, "\\Pic*", true).unwrap();
    let paths: Vec<&str> = matches.iter().map(|m| m.1.as_str()).collect();
    assert_eq!(
        paths,
        vec![
            "My Phone:SD Card:\\Pictures",
            "My Phone:SD Card:\\Pictures\\2021",
            "My Phone:SD Card:\\Pictures\\2021\\april.jpg",
            "My Phone:SD Card:\\Pictures\\index.txt",
        ]
    );
}

#[test]
fn test_device_iterate_root() {
    let dev = picture_phone("My Phone");
    let storage = &dev.content[0].children[0];
    let matches = device_iterate_file_or_folder(&dev.info, storage, "\\", false).unwrap();
    assert_eq!(matches.len(), 1);
    assert_eq!(matches[0].1, "My Phone:SD Card:\\");
    assert_eq!(matches[0].0.name, "SD Card");
}

#[test]
fn test_device_find_file_or_folder() {
    let dev = picture_phone("My Phone");
    let storage = &dev.content[0].children[0];
    let found = device_find_file_or_folder(&dev.info, storage, "\\Pictures\\*").unwrap().unwrap();
    assert_eq!(found.1, "My Phone:SD Card:\\Pictures\\2021");
    let missing = device_find_file_or_folder(&dev.info, storage, "\\Nothing").unwrap();
    assert!(missing.is_none());
}

#[test]
fn test_command_list_files_not_found() {
    // listing over an address that matches no device fails with NotFound
    let devices = vec![picture_phone("My Phone")];
    let err = command_list_files(&devices, "NoSuchDevice:*:\\", false).unwrap_err();
    assert_eq!(err.kind, ErrorKind::NotFound);
}

#[test]
fn test_command_list_files_matches() {
    let devices = vec![picture_phone("My Phone")];
    let lines = command_list_files(&devices, "My*:SD*:\\Pictures\\**\\*.jpg", false).unwrap();
    assert_eq!(lines.len(), 1);
    assert_eq!(lines[0].1, "My Phone:SD Card:\\Pictures\\2021\\april.jpg");
}

#[test]
fn test_command_list_files_invalid_address() {
    let devices = vec![picture_phone("My Phone")];
    let err = command_list_files(&devices, "no-colons-here", false).unwrap_err();
    assert_eq!(err.kind, ErrorKind::InvalidPath);
}

#[test]
fn test_copy_from_device_to_local() {
    // resolve the device source, map its subtree, and replay it locally
    let devices = vec![picture_phone("My Phone")];
    let path = DeviceStoragePath::from("My Phone:SD Card:\\Pictures").unwrap();
    let (info, storage) = find_device_storage(&devices, &path).unwrap();
    let found = device_find_file_or_folder(&info, &storage, "\\Pictures").unwrap().unwrap();
    assert_eq!(found.0.name, "Pictures");

    let source = mtpcopy::object_to_fs_entry(&storage.children[0]);
    assert_eq!(source.info.name, "Pictures");
    assert!(source.info.is_folder);

    let (dest, _) = mtpcopy::copy_hierarchy(&source, Vec::new(), "Pictures", true, false).unwrap();
    assert_eq!(dest.len(), 1);
    assert_eq!(dest[0].children.len(), 2);
    assert_eq!(dest[0].children[0].info.name, "2021");
    assert_eq!(dest[0].children[0].children[0].info.name, "april.jpg");
    assert_eq!(dest[0].children[0].children[0].content, b"x".to_vec());
    assert_eq!(dest[0].children[1].info.name, "index.txt");
}

#[test]
fn test_join_path() {
    assert_eq!(join_path("a:b:", ""), "a:b:\\");
    assert_eq!(join_path("a:b:\\c", "d"), "a:b:\\c\\d");
}

#[test]
fn test_has_wildcard_paths() {
    assert_eq!(has_wildcard("C:\\plain\\path", PathType::Local).unwrap(), false);
    assert_eq!(has_wildcard("C:\\some*\\path", PathType::Local).unwrap(), true);
    // device and storage names may hold wildcards; only the path part counts
    assert_eq!(
        has_wildcard("My*:SD*:\\plain", PathType::DeviceStorage).unwrap(),
        false
    );
    assert_eq!(
        has_wildcard("My*:SD*:\\pat?ern", PathType::DeviceStorage).unwrap(),
        true
    );
}

#[test]
fn test_plan_destination() {
    assert_eq!(
        plan_destination(TargetStatus::NotExist, TargetStatus::Folder).unwrap(),
        DestinationPlan::CreateUnderParent
    );
    assert_eq!(
        plan_destination(TargetStatus::Folder, TargetStatus::Folder).unwrap(),
        DestinationPlan::UseExistingPath
    );
    assert_eq!(
        plan_destination(TargetStatus::File, TargetStatus::Folder).unwrap(),
        DestinationPlan::UseExistingPath
    );
    let err: AppError =
        plan_destination(TargetStatus::NotExist, TargetStatus::NotExist).unwrap_err();
    assert_eq!(err.kind, ErrorKind::NotFound);
    let err = plan_destination(TargetStatus::Hidden, TargetStatus::Folder).unwrap_err();
    assert_eq!(err.kind, ErrorKind::Forbidden);
}
