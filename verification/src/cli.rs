//! The command line: the two commands and their arguments.

use vstd::prelude::*;

verus! {

/// The parsed command line.
pub struct Cli {
    pub command: Commands,
}

/// The commands of the tool.
pub enum Commands {
    /// Export applications from the console to local DSL files.
    Export {
        /// The console's base URL.
        url: String,
        /// The account's e-mail address.
        email: String,
        /// The account's password; asked for where it is not given.
        password: Option<String>,
        /// The directory the DSL files are saved under.
        output: String,
        /// The application modes to export, separated by commas, or `all`.
        modes: String,
        /// Only applications with this tag.
        tag: Option<String>,
        /// The environment whose mapping is updated.
        env: String,
        /// The mapping file.
        map_file: String,
    },
    /// Import local DSL files into the console.
    Import {
        /// The console's base URL.
        url: String,
        /// The account's e-mail address.
        email: String,
        /// The account's password; asked for where it is not given.
        password: Option<String>,
        /// One DSL file to import.
        file: Option<String>,
        /// A directory of DSL files to import.
        dir: Option<String>,
        /// The application that a single file updates.
        app_id: Option<String>,
        /// The mapping file (for a directory).
        map_file: String,
        /// The environment the import goes to.
        env: String,
        /// Publish workflows and advanced chats after the import.
        publish: bool,
    },
}

} // verus!
