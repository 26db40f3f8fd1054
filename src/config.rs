//! Settings of the server.
use vstd::prelude::*;

verus! {

/// The command line: the directory served, where to listen, the default
/// thumbnail size, the log level, and the switches.
pub struct Cli {
    pub base_dir: String,
    pub port: u16,
    pub bind: String,
    pub thumb_size: u32,
    pub log_level: String,
    pub show_hidden: bool,
    pub watch: bool,
}

/// The settings the server runs with: the directory served, as given and
/// canonical, the default thumbnail size, whether hidden files are listed,
/// whether the frame-extraction tool is there, and whether files are
/// watched.
pub struct AppConfig {
    pub base_dir: String,
    pub base_dir_canonical: String,
    pub thumb_size: u32,
    pub show_hidden: bool,
    pub ffmpeg_available: bool,
    pub watch_enabled: bool,
}

impl AppConfig {
    /// The settings for a command line, given the canonical form of its
    /// directory and whether the tool answered.
    pub fn from_cli(cli: &Cli, base_dir_canonical: String, ffmpeg_available: bool) -> (r: AppConfig)
        ensures
            r.base_dir@ == cli.base_dir@,
            r.base_dir_canonical == base_dir_canonical,
            r.thumb_size == cli.thumb_size,
            r.show_hidden == cli.show_hidden,
            r.ffmpeg_available == ffmpeg_available,
            r.watch_enabled == cli.watch,
    {
        AppConfig {
            base_dir: cli.base_dir.clone(),
            base_dir_canonical,
            thumb_size: cli.thumb_size,
            show_hidden: cli.show_hidden,
            ffmpeg_available,
            watch_enabled: cli.watch,
        }
    }
}

} // verus!
