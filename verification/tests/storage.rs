use evsieve::persist::path::device_path_to_storage_name;
use evsieve::persist::storage::{encode_path_for_device, encode_raw_path_for_device};

#[test]
fn test_encode_path_for_device() {
    assert_eq!(encode_path_for_device("/foo"), "foo");
    let bytes = [1u8, 192, 20];
    assert_eq!(encode_raw_path_for_device(&bytes), "\\b01\\bC0\\b14");
    assert_eq!(encode_path_for_device("/foo/bar/baz"), "foo.bar.baz");
    assert_eq!(encode_path_for_device("/foo/bar.baz"), "foo.bar\\.baz");
    assert_eq!(encode_path_for_device("/foo/bar\\.baz"), "foo.bar\\\\\\.baz");
}

#[test]
fn encode_path_drops_every_leading_slash() {
    assert_eq!(encode_path_for_device("//dev/input"), "dev.input");
    assert_eq!(encode_path_for_device(""), "");
}

#[test]
fn storage_name_escapes() {
    assert_eq!(device_path_to_storage_name(b"/dev/input/event3"), b"_dev_input_event3".to_vec());
    assert_eq!(device_path_to_storage_name(b"/a_b\\c"), b"_a\\_b\\\\c".to_vec());
}
