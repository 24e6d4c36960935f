use mtpcopy::DeviceStoragePath;
use mtpcopy::PathType;
use mtpcopy::get_path_type;

#[test]
fn test_invalid_format() {
    assert!(DeviceStoragePath::from("").is_err());
    assert!(DeviceStoragePath::from("a").is_err());
    assert!(DeviceStoragePath::from("a:").is_err());
    assert!(DeviceStoragePath::from("a:b").is_err());
    assert!(DeviceStoragePath::from("a:b:c:").is_err());
}

fn check_valid_format(
    input: &str,
    expected_device_name: &str,
    expected_storage_name: &str,
    expected_path: &str,
) {
    assert_eq!(
        DeviceStoragePath::from(input).unwrap(),
        DeviceStoragePath {
            device_name: String::from(expected_device_name),
            storage_name: String::from(expected_storage_name),
            path: String::from(expected_path),
        }
    );
}

#[test]
fn test_valid_format() {
    check_valid_format("a:b:", "a", "b", "\\");
    check_valid_format("a:b:\\", "a", "b", "\\");
    check_valid_format("a:b:/", "a", "b", "\\");
    check_valid_format("a:b:c", "a", "b", "\\c");
    check_valid_format("a:b:\\c", "a", "b", "\\c");
    check_valid_format("a:b:/c", "a", "b", "\\c");
    check_valid_format("a:b:\\\\c///d\\e/", "a", "b", "\\c\\d\\e");
    check_valid_format(
        "\u{3a3a}\u{3a3a}:\u{3a3a}\u{3a3a}\u{3a3a}:\\\u{5c5c}\\\u{5c5c}",
        "\u{3a3a}\u{3a3a}",
        "\u{3a3a}\u{3a3a}\u{3a3a}",
        "\\\u{5c5c}\\\u{5c5c}",
    );
}

#[test]
fn test_full_path() {
    assert_eq!(
        DeviceStoragePath::from("a:b:c").unwrap().full_path(),
        String::from("a:b:\\c")
    );
}

#[test]
fn test_full_path_round_trip() {
    // parse / print reaches a fixed point after one cycle
    for input in ["a:b:", "a:b:/c", "My Device:SD Card:Pictures//2021/", "x:y:\\a\\b\\c"] {
        let first = DeviceStoragePath::from(input).unwrap().full_path();
        let second = DeviceStoragePath::from(first.as_str()).unwrap().full_path();
        assert_eq!(first, second);
    }
}

#[test]
fn test_file_name() {
    assert_eq!(DeviceStoragePath::from("a:b:").unwrap().file_name(), None);
    assert_eq!(DeviceStoragePath::from("a:b:/").unwrap().file_name(), None);
    assert_eq!(DeviceStoragePath::from("a:b:/c").unwrap().file_name(), Some("c"));
    assert_eq!(DeviceStoragePath::from("a:b:/c/d").unwrap().file_name(), Some("d"));
}

fn check_valid_parent(
    input: &str,
    expected_device_name: &str,
    expected_storage_name: &str,
    expected_path: &str,
) {
    assert_eq!(
        DeviceStoragePath::from(input).unwrap().parent().unwrap(),
        DeviceStoragePath {
            device_name: String::from(expected_device_name),
            storage_name: String::from(expected_storage_name),
            path: String::from(expected_path),
        }
    );
}

#[test]
fn test_valid_parent() {
    check_valid_parent("a:b:/c/d/e", "a", "b", "\\c\\d");
    check_valid_parent("a:b:\\c\\d\\e", "a", "b", "\\c\\d");
    check_valid_parent("a:b:/c/d/e/", "a", "b", "\\c\\d");
    check_valid_parent("a:b:\\c\\d\\e\\", "a", "b", "\\c\\d");
    check_valid_parent("a:b:/c", "a", "b", "\\");
    check_valid_parent("a:b:\\c", "a", "b", "\\");
    check_valid_parent("a:b:\\\u{5c5c}\\\u{5c5c}", "a", "b", "\\\u{5c5c}");
}

#[test]
fn test_invalid_parent() {
    assert!(DeviceStoragePath::from("a:b:").unwrap().parent().is_none());
    assert!(DeviceStoragePath::from("a:b:\\").unwrap().parent().is_none());
    assert!(DeviceStoragePath::from("a:b:/").unwrap().parent().is_none());
}

#[test]
fn test_get_path_type() {
    assert_eq!(get_path_type("plain/local/path"), PathType::Local);
    assert_eq!(get_path_type("C:\\Users\\someone"), PathType::Local);
    assert_eq!(get_path_type("My Device:SD Card:\\Pictures"), PathType::DeviceStorage);
    assert_eq!(get_path_type("a:b:c:d"), PathType::Invalid);
}
