//! The decisions behind the desktop commands: error reports, the release page
//! to open, the command that starts the app with Windows, and the window
//! behaviour on close.
use vstd::prelude::*;

use crate::audio::AudioError;
use crate::config::AppConfig;
use crate::text::{concat, owned, same_text, starts_with, starts_with_str};

verus! {

/// The project's source page.
pub open spec fn source_url() -> Seq<char> {
    "https://github.com/nuzair46/pipemic"@
}

/// The project's releases page.
pub open spec fn releases_url() -> Seq<char> {
    "https://github.com/nuzair46/pipemic/releases"@
}

/// The project's source page.
pub fn source_url_text() -> (r: String)
    ensures
        r@ == source_url(),
{
    owned("https://github.com/nuzair46/pipemic")
}

/// An error as a command reports it: its message.
#[derive(Debug, Clone)]
pub struct CommandError {
    message: String,
}

impl CommandError {
    /// The message.
    pub closed spec fn message_view(&self) -> Seq<char> {
        self.message@
    }

    /// An error with this message.
    pub fn new(message: String) -> (r: CommandError)
        ensures
            r.message_view() == message@,
    {
        CommandError { message }
    }

    /// The report of an audio error: its description.
    pub fn from_audio_error(error: &AudioError) -> (r: CommandError)
        ensures
            r.message_view() == error.message_view(),
    {
        CommandError { message: error.message() }
    }

    /// The message.
    pub fn message(&self) -> (r: String)
        ensures
            r@ == self.message_view(),
    {
        self.message.clone()
    }
}

/// The page to open for a release: the given address where it lies under the
/// releases page, else the releases page.
pub open spec fn release_target(url: Option<Seq<char>>) -> Seq<char> {
    match url {
        Some(u) => if starts_with(u, releases_url()) {
            u
        } else {
            releases_url()
        },
        None => releases_url(),
    }
}

/// The page to open for a release.
pub fn release_url_target(url: Option<String>) -> (r: String)
    ensures
        r@ == release_target(match url {
            Some(u) => Some(u@),
            None => None,
        }),
{
    match url {
        Some(u) => {
            if starts_with_str(u.as_str(), "https://github.com/nuzair46/pipemic/releases") {
                u
            } else {
                owned("https://github.com/nuzair46/pipemic/releases")
            }
        },
        None => owned("https://github.com/nuzair46/pipemic/releases"),
    }
}

/// The command line that starts the app with Windows: the quoted executable
/// path, and `--minimized` where the app minimises to the tray.
pub open spec fn startup_command_line(exe: Seq<char>, minimize_to_tray: bool) -> Seq<char> {
    "\""@ + exe + "\""@ + if minimize_to_tray {
        " --minimized"@
    } else {
        Seq::empty()
    }
}

/// The command line that starts the app with Windows.
pub fn startup_command(exe: &str, config: &AppConfig) -> (r: String)
    ensures
        r@ == startup_command_line(exe@, config.minimize_to_tray),
{
    let mut r = concat("\"", exe);
    r.append("\"");
    if config.minimize_to_tray {
        r.append(" --minimized");
    }
    r
}

/// Whether the app starts hidden: it minimises to the tray and was started
/// with `--minimized`.
pub fn should_start_minimized(config: &AppConfig, args: &[String]) -> (r: bool)
    ensures
        r == (config.minimize_to_tray && exists|i: int|
            0 <= i < args@.len() && (#[trigger] args@[i])@ == "--minimized"@),
{
    if !config.minimize_to_tray {
        return false;
    }
    let n = args.len();
    let mut i: usize = 0;
    while i < n
        invariant
            n == args@.len(),
            i <= n,
            config.minimize_to_tray,
            forall|j: int| 0 <= j < i ==> (#[trigger] args@[j])@ != "--minimized"@,
        decreases n - i,
    {
        if same_text(args[i].as_str(), "--minimized") {
            assert(args@[i as int]@ == "--minimized"@);
            return true;
        }
        i = i + 1;
    }
    false
}

/// Whether closing the window hides it: the app minimises to the tray and no
/// quit was requested.
pub fn should_hide_on_close(config: &AppConfig, quit_requested: bool) -> (r: bool)
    ensures
        r == (config.minimize_to_tray && !quit_requested),
{
    config.minimize_to_tray && !quit_requested
}

} // verus!
