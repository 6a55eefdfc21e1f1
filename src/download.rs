//! Download configuration and the download capability.
use vstd::prelude::*;
use crate::scraper::SelfSetup;

verus! {

/// Where the program keeps its parts.
#[derive(Debug, Clone, PartialEq)]
pub struct SetupConfig {
    pub include_path: String,
    pub lib_path: String,
    pub exec_path: String,
    pub data_path: String,
}

/// What to download, and where to.
#[derive(Debug, Clone, PartialEq)]
pub struct DownloadConfig {
    pub uri: String,
    pub local_path: String,
}

/// Builds a download configuration from the whole structured payload.
#[derive(Debug, Clone, PartialEq, Default)]
pub struct DownloadConfigForward;

impl DownloadConfigForward {
    /// Creates an instance of [DownloadConfigForward]
    pub fn new() -> (r: Self) {
        DownloadConfigForward {}
    }
}

/// Builds download configurations that all save into one directory.
#[derive(Debug, Clone, PartialEq)]
pub struct DownloadConfigFromURI {
    local_path: String,
}

impl DownloadConfigFromURI {
    pub closed spec fn directory(&self) -> Seq<char> {
        self.local_path@
    }

    fn from_dir(local_path: String) -> (r: Self)
        ensures
            r.directory() == local_path@,
    {
        DownloadConfigFromURI { local_path }
    }

    /// Saves into `local_path` where it is a directory (`local_path_is_dir`), else into
    /// `default_dir`, the default data directory.
    pub fn new(local_path: String, local_path_is_dir: bool, default_dir: String) -> (r: Self)
        ensures
            r.directory() == if local_path_is_dir { local_path@ } else { default_dir@ },
    {
        if local_path_is_dir {
            Self::from_dir(local_path)
        } else {
            Self::from_dir(default_dir)
        }
    }

    /// As [DownloadConfigFromURI::new], from the text of a path. Any text is a path.
    pub fn from_str(local_path: &str, local_path_is_dir: bool, default_dir: String) -> (r: Result<Self, String>)
        ensures
            r matches Ok(c) && c.directory() == if local_path_is_dir { local_path@ } else { default_dir@ },
    {
        Ok(Self::new(local_path.to_owned(), local_path_is_dir, default_dir))
    }

    /// The directory downloads are saved into.
    pub fn local_path(&self) -> (r: &String)
        ensures
            r@ == self.directory(),
    {
        &self.local_path
    }

    /// The configuration that downloads `uri` into this directory.
    pub fn generate(&self, uri: &str) -> (r: DownloadConfig)
        ensures
            r.uri@ == uri@,
            r.local_path@ == self.directory(),
    {
        DownloadConfig { uri: uri.to_owned(), local_path: self.local_path.clone() }
    }
}

/// Makes download configurations.
pub trait DownloadConfigFactory {
    fn generate_for(&self, uri: &str) -> DownloadConfig;
}

impl DownloadConfigFactory for DownloadConfigFromURI {
    fn generate_for(&self, uri: &str) -> DownloadConfig {
        self.generate(uri)
    }
}

/// The download configuration factories.
#[derive(Debug, Clone, PartialEq)]
pub enum DownloadConfigFactoryEnum {
    DownloadConfigForward(DownloadConfigForward),
}

/// Downloads what a configuration names.
pub trait ProvideDownload: SelfSetup {
    fn download(&self, config: DownloadConfig) -> Result<(), String>;
}

} // verus!
