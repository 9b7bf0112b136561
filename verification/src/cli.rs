//! The command surface: plain data for each command the tool offers.
//! The surrounding application fills these from the parsed command
//! line and hands them to the library.

use vstd::prelude::*;

verus! {

/// Options shared by the commands that create a volume.
pub struct ImageOptions {
    /// How many days the volume is good to keep.
    pub days: u32,
    /// An explicit volume name, when one was given.
    pub volume_name: Option<String>,
    /// Keep the container file instead of deleting it after mounting.
    pub keep_dmg: bool,
    /// An explicit passphrase, when one was given.
    pub password: Option<String>,
}

/// Creates a new encrypted volume and mounts it.
pub struct NewCommand {
    pub image_opts: ImageOptions,
    /// The size of the container in storage units.
    pub size: u64,
}

/// Imports an encrypted archive into a new encrypted volume.
pub struct ImportCommand {
    pub image_opts: ImageOptions,
    /// Extra container room beyond the archive's uncompressed size.
    pub extra_size: u64,
    /// The path of the input archive.
    pub path: String,
}

/// Ejects encrypted volumes.
pub struct EjectCommand {
    /// Eject every managed volume.
    pub all: bool,
    /// Eject the managed volumes whose expiry has passed.
    pub expired: bool,
    /// The path of one volume to eject.
    pub path: Option<String>,
}

/// Lists the mounted managed volumes.
pub struct ListCommand {
    /// Also show each volume's expiry.
    pub verbose: bool,
}

/// Installs or uninstalls the scheduled prune task.
pub struct CronCommand {
    pub install: bool,
    pub uninstall: bool,
}

/// Scans the download folder for files from watched origins.
pub struct FindDownloadsCommand {
    /// The domain patterns to look out for; empty means any origin.
    pub domains: Vec<String>,
    /// Show source and creation time for each match.
    pub verbose: bool,
    /// A folder to scan instead of the default download folder.
    pub path: Option<String>,
    /// Delete every matched file.
    pub delete: bool,
    /// Only consider files older than this many days.
    pub days: Option<u32>,
}

/// One invocation of the tool.
pub enum Commands {
    New(NewCommand),
    Import(ImportCommand),
    List(ListCommand),
    Eject(EjectCommand),
    Cron(CronCommand),
    FindDownloads(FindDownloadsCommand),
}

} // verus!
