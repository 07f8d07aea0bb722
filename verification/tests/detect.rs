use where_am_i::detect::{autodetect_path, DetectError};

#[test]
fn no_directory_is_found_without_the_platform() {
    assert_eq!(autodetect_path(), Err(DetectError::NotConfigured));
}

#[test]
fn the_user_is_told_to_name_the_directory() {
    assert_eq!(
        DetectError::NotConfigured.message(),
        "Set logs_path in where-am-i.toml to the location of your VRChat log files"
    );
}
