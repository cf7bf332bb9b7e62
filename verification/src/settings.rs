//! The service's configuration data and its rendering as a TOML config file.
//! Loading the configuration (command line, environment, files, logger) is
//! the surrounding process's business; the library only holds the values.

use vstd::prelude::*;
use vstd::string::StringExecFns;

use crate::resources::{join_with, joined};

verus! {

/// The portion of the config needed immediately at process start.
pub struct Startup {
    pub working_dir: String,
    pub listen_addr: String,
}

/// The portion of the config listing the available content.
pub struct Media {
    pub videos: Vec<String>,
}

/// The main type storing all the configuration data.
pub struct Settings {
    pub startup: Startup,
    pub media: Media,
}

/// The TOML text for a configuration with the given values.
pub open spec fn toml_of(
    working_dir: Seq<char>,
    listen_addr: Seq<char>,
    videos: Seq<Seq<char>>,
) -> Seq<char> {
    "[startup]\nworking_dir = \""@ + working_dir + "\"\nlisten_addr = \""@ + listen_addr
        + "\"\n[media]\nvideos = [\""@ + joined(videos, "\",\""@) + "\"]"@
}

impl Settings {
    /// Generates a TOML format config file containing the values set in this
    /// struct.
    pub fn to_toml(&self) -> (out: String)
        ensures
            out@ == toml_of(
                self.startup.working_dir@,
                self.startup.listen_addr@,
                self.media.videos.deep_view(),
            ),
    {
        let mut out = String::new();
        out.append("[startup]\nworking_dir = \"");
        out.append(self.startup.working_dir.as_str());
        out.append("\"\nlisten_addr = \"");
        out.append(self.startup.listen_addr.as_str());
        out.append("\"\n[media]\nvideos = [\"");
        let j = join_with(&self.media.videos, "\",\"");
        out.append(j.as_str());
        out.append("\"]");
        proof {
            assert(out@ =~= toml_of(
                self.startup.working_dir@,
                self.startup.listen_addr@,
                self.media.videos.deep_view(),
            ));
        }
        out
    }
}

} // verus!
