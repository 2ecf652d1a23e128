//! The application's "about" record and where it is kept on disk. The
//! surrounding application resolves the data directory and reads or writes
//! the file; the defaults and the file location are fixed here.

use vstd::prelude::*;
use vstd::string::StringExecFns;

verus! {

/// What the about screen shows.
#[derive(Debug)]
pub struct AboutInfo {
    pub app_name: String,
    pub version: String,
    pub developer: String,
    pub changelog: String,
}

/// The about record served before any has been written.
pub fn get_default_about_info() -> (r: AboutInfo)
    ensures
        r.app_name@ == "iToDo"@,
        r.version@ == "1.0.0"@,
        r.developer@ == "iToDo Team"@,
        r.changelog@ == "Initial release"@,
{
    AboutInfo {
        app_name: String::from_str("iToDo"),
        version: String::from_str("1.0.0"),
        developer: String::from_str("iToDo Team"),
        changelog: String::from_str("Initial release"),
    }
}

/// The about file's path under the given data directory.
pub fn get_about_file_path(data_dir: &str) -> (r: String)
    ensures
        r@ == data_dir@ + "/about.json"@,
{
    let mut path = String::from_str(data_dir);
    path.append("/about.json");
    path
}

} // verus!
