//! The configuration surface: which address and port the surrounding
//! server binds, where HTML templates live, and where the store keeps
//! its data.  Reading and layering configuration sources is the
//! shell's business; the library only holds the resolved values.

use vstd::prelude::*;

verus! {

/// Formats in which a configuration can be written out.
#[derive(Clone, Copy, PartialEq, Eq, Structural)]
pub enum CfgOutputFormat {
    YAML,
}

impl Default for CfgOutputFormat {
    fn default() -> (r: Self)
        ensures
            r == CfgOutputFormat::YAML,
    {
        CfgOutputFormat::YAML
    }
}

/// The resolved configuration.
pub struct Cfg {
    /// Log verbosity level name.
    pub verbose: String,
    /// Address the server binds.
    pub address: String,
    /// Port the server binds.
    pub port: u16,
    /// Glob from which HTML templates are loaded.
    pub template_glob: String,
    /// Path of the backing file or database; each backend falls back
    /// to its own default file name when absent.
    pub storage_path: Option<String>,
}

/// The default glob from which HTML templates are loaded.
pub fn default_template_glob() -> (r: String)
    ensures
        r@ == "templates/**/*"@,
{
    "templates/**/*".to_owned()
}

impl Default for Cfg {
    fn default() -> (r: Self)
        ensures
            r.verbose@ == "info"@,
            r.address@ == "0.0.0.0"@,
            r.port == 8080,
            r.template_glob@ == "templates/**/*"@,
            r.storage_path is None,
    {
        Cfg {
            verbose: "info".to_owned(),
            address: "0.0.0.0".to_owned(),
            port: 8080,
            template_glob: default_template_glob(),
            storage_path: None,
        }
    }
}

} // verus!
