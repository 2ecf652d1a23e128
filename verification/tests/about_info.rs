use itodo::about::{get_about_file_path, get_default_about_info};

#[test]
fn default_about_record_holds_fixed_values() {
    let info = get_default_about_info();
    assert_eq!(info.app_name, "iToDo");
    assert_eq!(info.version, "1.0.0");
    assert_eq!(info.developer, "iToDo Team");
    assert_eq!(info.changelog, "Initial release");
}

#[test]
fn about_file_sits_under_the_data_directory() {
    assert_eq!(get_about_file_path("/tmp/data"), "/tmp/data/about.json");
    assert_eq!(get_about_file_path(""), "/about.json");
}
