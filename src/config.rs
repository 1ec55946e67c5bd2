use vstd::prelude::*;

use crate::path::strs;
use crate::table::Table;

verus! {

/// Which variables reach the final environment, and which path segments
/// are dropped from them.
pub struct Config {
    /// Names of variables that hold path lists.
    pub path_vars: Vec<String>,
    /// For a path variable, the segments to drop from it.
    pub paths: Table<Vec<String>>,
    /// Names of variables left out of the output.
    pub variables: Vec<String>,
}

/// What a `Config` holds, as mathematical values.
pub struct ConfigView {
    pub path_vars: Seq<Seq<char>>,
    pub paths: Map<Seq<char>, Seq<String>>,
    pub variables: Seq<Seq<char>>,
}

impl View for Config {
    type V = ConfigView;

    open spec fn view(&self) -> ConfigView {
        ConfigView {
            path_vars: strs(self.path_vars@),
            paths: self.paths@,
            variables: strs(self.variables@),
        }
    }
}

impl Config {
    pub open spec fn wf(&self) -> bool {
        self.paths.wf()
    }
}

} // verus!
