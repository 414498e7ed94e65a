use vstd::prelude::*;

verus! {

/// Options that steer discovery: the name of the index file a folder must
/// contain to be listed, and whether hidden entries (file names starting
/// with `.` or `_`) are skipped.
pub struct Config {
    pub index_name: String,
    pub ignore_hidden: bool,
}

/// The mathematical shape of a configuration.
pub struct ConfigView {
    pub index_name: Seq<char>,
    pub ignore_hidden: bool,
}

impl View for Config {
    type V = ConfigView;

    open spec fn view(&self) -> ConfigView {
        ConfigView { index_name: self.index_name@, ignore_hidden: self.ignore_hidden }
    }
}

impl Config {
    pub fn new(index_name: String, ignore_hidden: bool) -> (c: Config)
        ensures
            c.index_name@ == index_name@,
            c.ignore_hidden == ignore_hidden,
    {
        Config { index_name, ignore_hidden }
    }
}

impl Default for Config {
    /// The default configuration: folders are gated on `index.md`, and
    /// hidden entries are skipped.
    fn default() -> (c: Config)
        ensures
            c.index_name@ == "index.md"@,
            c.ignore_hidden == true,
    {
        Config { index_name: String::from_str("index.md"), ignore_hidden: true }
    }
}

} // verus!
