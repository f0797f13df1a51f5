//! The server's configuration record.
//!
//! The surrounding program parses its command line and hands the library
//! this plain record: where the log configuration and the template file
//! live, and the address and port to serve on.

use vstd::prelude::*;
use vstd::string::StringExecFns;

verus! {

/// The configuration the server runs with.
#[derive(Debug, Clone)]
pub struct Args {
    pub log_file: String,
    pub address: String,
    pub port: u16,
    pub templates_file: String,
}

impl Default for Args {
    /// The stock configuration: local loopback on port 3000, with the
    /// conventional file names.
    fn default() -> (r: Args)
        ensures
            r.log_file@ == "log4rs.yml"@,
            r.address@ == "127.0.0.1"@,
            r.port == 3000,
            r.templates_file@ == "templates.yaml"@,
    {
        Args {
            log_file: String::from_str("log4rs.yml"),
            address: String::from_str("127.0.0.1"),
            port: 3000,
            templates_file: String::from_str("templates.yaml"),
        }
    }
}

} // verus!
