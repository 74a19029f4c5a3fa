//! Build, version, packaging, and binding-generation metadata.  Reading
//! the build environment and writing archives are edge work; the data
//! and the name formatting are kept here.

use vstd::prelude::*;
use vstd::string::StringExecFns;

verus! {

/// Build and version information
#[derive(Debug, Clone)]
pub struct VersionInfo {
    pub version: String,
    pub git_hash: Option<String>,
    pub build_date: String,
    pub rust_version: String,
    pub target: String,
}

impl VersionInfo {
    /// The short version line: the version, with the first eight
    /// characters of the commit hash in parentheses when one is known.
    pub fn version_string(&self) -> (r: String)
        requires
            self.git_hash matches Some(h) ==> h@.len() >= 8,
        ensures
            match self.git_hash {
                Option::Some(h) => r@ == self.version@ + " ("@ + h@.subrange(0, 8) + ")"@,
                Option::None => r@ == self.version@,
            },
    {
        match &self.git_hash {
            Option::Some(h) => {
                let mut r = self.version.clone();
                let hs = prefix8(h.as_str());
                r.append(" (");
                r.append(hs.as_str());
                r.append(")");
                r
            },
            Option::None => self.version.clone(),
        }
    }
}

/// The first eight characters of a string.
fn prefix8(s: &str) -> (r: String)
    requires
        s@.len() >= 8,
    ensures
        r@ == s@.subrange(0, 8),
{
    let cs = crate::strutil::str_chars(s);
    let mut r = String::new();
    let mut i: usize = 0;
    while i < 8
        invariant
            0 <= i <= 8,
            cs@ == s@,
            s@.len() >= 8,
            r@ =~= s@.subrange(0, i as int),
        decreases 8 - i,
    {
        crate::strutil::push_char(&mut r, cs[i]);
        i = i + 1;
        assert(r@ =~= s@.subrange(0, i as int));
    }
    r
}

/// Package configuration
pub struct PackageConfig {
    pub name: String,
    pub version: String,
    pub target: String,
    pub include_debug_info: bool,
    pub compress: bool,
}

impl PackageConfig {
    pub fn new(name: &str, version: &str, target: &str) -> (r: Self)
        ensures
            r.name@ == name@,
            r.version@ == version@,
            r.target@ == target@,
            r.include_debug_info == false,
            r.compress == true,
    {
        Self {
            name: name.to_owned(),
            version: version.to_owned(),
            target: target.to_owned(),
            include_debug_info: false,
            compress: true,
        }
    }

    /// The archive file name: name, version and target joined by dashes,
    /// with the archive suffix when compression is on.
    pub fn package_filename(&self) -> (r: String)
        ensures
            self.compress ==> r@ == self.name@ + "-"@ + self.version@ + "-"@ + self.target@
                + ".tar.gz"@,
            !self.compress ==> r@ == self.name@ + "-"@ + self.version@ + "-"@ + self.target@,
    {
        let mut r = self.name.clone();
        r.append("-");
        r.append(self.version.as_str());
        r.append("-");
        r.append(self.target.as_str());
        if self.compress {
            r.append(".tar.gz");
        }
        r
    }
}

/// Supported binding languages
pub enum BindingLanguage {
    C,
    Cpp,
}

/// Configuration for C-binding generation
pub struct CBindgenConfig {
    pub crate_dir: String,
    pub output_file: String,
    pub language: BindingLanguage,
}

impl CBindgenConfig {
    pub fn new_c(crate_dir: &str, output_file: &str) -> (r: Self)
        ensures
            r.crate_dir@ == crate_dir@,
            r.output_file@ == output_file@,
            r.language is C,
    {
        Self {
            crate_dir: crate_dir.to_owned(),
            output_file: output_file.to_owned(),
            language: BindingLanguage::C,
        }
    }

    pub fn new_cpp(crate_dir: &str, output_file: &str) -> (r: Self)
        ensures
            r.crate_dir@ == crate_dir@,
            r.output_file@ == output_file@,
            r.language is Cpp,
    {
        Self {
            crate_dir: crate_dir.to_owned(),
            output_file: output_file.to_owned(),
            language: BindingLanguage::Cpp,
        }
    }
}

} // verus!
