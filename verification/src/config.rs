//! Where a run reads and where it writes.

use vstd::prelude::*;
use vstd::string::StringExecFns;

verus! {

/// The directory that is walked and the directory that takes the pages.
#[derive(Debug)]
pub struct Config {
    pub source: String,
    pub output: String,
}

/// The source directory where none is given: the current directory.
pub open spec fn default_source() -> Seq<char> {
    "."@
}

/// The output directory where none is given.
pub open spec fn default_output() -> Seq<char> {
    "man"@
}

impl Config {
    /// The configuration for the two optional arguments of a run, each
    /// replaced by its default where it is missing.
    pub fn from_args(source: Option<String>, output: Option<String>) -> (c: Config)
        ensures
            c.source@ == match source {
                Some(s) => s@,
                None => default_source(),
            },
            c.output@ == match output {
                Some(s) => s@,
                None => default_output(),
            },
    {
        let source = match source {
            Some(s) => s,
            None => ".".to_owned(),
        };
        let output = match output {
            Some(s) => s,
            None => "man".to_owned(),
        };
        Config { source, output }
    }

    /// The path of the file that takes the page `name`: the output
    /// directory, a slash and the name.
    pub fn page_path(&self, name: &str) -> (path: String)
        ensures
            path@ == self.output@ + "/"@ + name@,
    {
        let mut path = self.output.clone();
        path.append("/");
        path.append(name);
        path
    }
}

/// The line that announces a page: the path of the file it was found in,
/// an arrow, and the path of the file that takes it.
pub fn progress_line(source: &str, target: &str) -> (line: String)
    ensures
        line@ == source@ + " -> "@ + target@,
{
    let mut line = source.to_owned();
    line.append(" -> ");
    line.append(target);
    line
}

} // verus!
