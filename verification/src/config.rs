//! Where the daemon keeps its files and how long it waits.

use crate::files::{FileFacts, FileKind};
use crate::path::{absolute, is_absolute, join_path, path_joined, paths_equal, same_path};
use crate::text::joined;
use crate::time::{Duration, NANOS_PER_MILLISECOND, NANOS_PER_SECOND};
use vstd::prelude::*;

verus! {

/// The settings of one daemon.
#[derive(Debug)]
pub struct DaemonConfig {
    pub home: String,
    pub socket: String,
    pub registry: String,
    snapshot_timeout: Duration,
    debounce_window: Duration,
    frame_limit: usize,
}

pub struct ConfigView {
    pub home: Seq<char>,
    pub socket: Seq<char>,
    pub registry: Seq<char>,
    pub snapshot_timeout: Duration,
    pub debounce_window: Duration,
    pub frame_limit: usize,
}

impl View for DaemonConfig {
    type V = ConfigView;

    closed spec fn view(&self) -> ConfigView {
        ConfigView {
            home: self.home@,
            socket: self.socket@,
            registry: self.registry@,
            snapshot_timeout: self.snapshot_timeout,
            debounce_window: self.debounce_window,
            frame_limit: self.frame_limit,
        }
    }
}

/// Why there is no usable configuration.
#[derive(Debug, PartialEq, Eq)]
pub enum ConfigError {
    MissingHome,
    RelativeSocket,
    MissingSocketParent,
    UnsafeDirectory(String),
    Io(String),
}

pub enum ConfigErrorView {
    MissingHome,
    RelativeSocket,
    MissingSocketParent,
    UnsafeDirectory(Seq<char>),
    Io(Seq<char>),
}

impl View for ConfigError {
    type V = ConfigErrorView;

    open spec fn view(&self) -> ConfigErrorView {
        match self {
            ConfigError::MissingHome => ConfigErrorView::MissingHome,
            ConfigError::RelativeSocket => ConfigErrorView::RelativeSocket,
            ConfigError::MissingSocketParent => ConfigErrorView::MissingSocketParent,
            ConfigError::UnsafeDirectory(path) => ConfigErrorView::UnsafeDirectory(path@),
            ConfigError::Io(message) => ConfigErrorView::Io(message@),
        }
    }
}

pub open spec fn config_error_text(error: ConfigErrorView) -> Seq<char> {
    match error {
        ConfigErrorView::MissingHome => "HOME is not set"@,
        ConfigErrorView::RelativeSocket => "JEFFD_SOCK must be an absolute path"@,
        ConfigErrorView::MissingSocketParent => "socket path has no parent"@,
        ConfigErrorView::UnsafeDirectory(path) => "unsafe socket directory "@ + path,
        ConfigErrorView::Io(message) => "cannot prepare socket directory: "@ + message,
    }
}

impl ConfigError {
    pub fn message(&self) -> (text: String)
        ensures
            text@ == config_error_text(self@),
    {
        match self {
            ConfigError::MissingHome => "HOME is not set".to_owned(),
            ConfigError::RelativeSocket => "JEFFD_SOCK must be an absolute path".to_owned(),
            ConfigError::MissingSocketParent => "socket path has no parent".to_owned(),
            ConfigError::UnsafeDirectory(path) => joined("unsafe socket directory ", path.as_str()),
            ConfigError::Io(message) => joined("cannot prepare socket directory: ", message.as_str()),
        }
    }
}

/// The largest frame on the socket: 16 MiB.
pub const FRAME_LIMIT: usize = 16777216;

/// The settings for a home directory and a socket.
pub open spec fn settings(home: Seq<char>, socket: Seq<char>, registry: Seq<char>) -> ConfigView {
    ConfigView {
        home,
        socket,
        registry,
        snapshot_timeout: Duration { nanos: (30 * NANOS_PER_SECOND) as u128 },
        debounce_window: Duration { nanos: (150 * NANOS_PER_MILLISECOND) as u128 },
        frame_limit: FRAME_LIMIT,
    }
}

/// The settings that the environment asks for: a home directory, which must be
/// absolute, and a socket, which must be absolute where it is named.
pub open spec fn resolved(home: Option<Seq<char>>, socket: Option<Seq<char>>) -> Result<ConfigView, ConfigErrorView> {
    match home {
        Some(home) => if is_absolute(home) {
            let parent = path_joined(home, ".jeff"@);
            let registry = path_joined(parent, "projects.json"@);
            match socket {
                Some(path) => if is_absolute(path) {
                    Ok(settings(home, path, registry))
                } else {
                    Err(ConfigErrorView::RelativeSocket)
                },
                None => Ok(settings(home, path_joined(parent, "jeffd.sock"@), registry)),
            }
        } else {
            Err(ConfigErrorView::MissingHome)
        },
        None => Err(ConfigErrorView::MissingHome),
    }
}

/// The settings below a home directory that is not looked at.
pub open spec fn default_settings(home: Option<Seq<char>>) -> ConfigView {
    let home = match home {
        Some(path) => path,
        None => ""@,
    };
    settings(home, path_joined(home, ".jeff/jeffd.sock"@), path_joined(home, ".jeff/projects.json"@))
}

/// The view of an optional text.
pub open spec fn str_view(text: Option<&str>) -> Option<Seq<char>> {
    match text {
        Some(value) => Some(value@),
        None => None,
    }
}

pub open spec fn config_result_view(result: Result<DaemonConfig, ConfigError>) -> Result<ConfigView, ConfigErrorView> {
    match result {
        Ok(config) => Ok(config@),
        Err(error) => Err(error@),
    }
}

/// What to do about the directory of the socket before it is checked.
#[derive(Clone, Copy, Debug, PartialEq, Eq, Structural)]
pub enum DirectoryPlan {
    /// It does not exist: create it for the owner alone.
    Create,
    /// It is the daemon's own: make sure of the owner, then take everyone
    /// else's access away.
    Restrict,
    /// It is someone else's: leave it as it is.
    Keep,
}

impl DaemonConfig {
    fn with_paths(home: String, socket: String, registry: String) -> (config: DaemonConfig)
        ensures
            config@ == settings(home@, socket@, registry@),
    {
        DaemonConfig {
            home,
            socket,
            registry,
            snapshot_timeout: Duration::from_secs(30),
            debounce_window: Duration::from_millis(150),
            frame_limit: FRAME_LIMIT,
        }
    }

    /// The settings below the environment's home directory, whatever it is, and
    /// below the working directory where there is none.
    pub fn default(home: Option<&str>) -> (config: DaemonConfig)
        ensures
            config@ == default_settings(str_view(home)),
    {
        let home = match home {
            Some(path) => path,
            None => "",
        };
        DaemonConfig::with_paths(
            home.to_owned(),
            join_path(home, ".jeff/jeffd.sock"),
            join_path(home, ".jeff/projects.json"),
        )
    }

    /// The settings for the environment's home directory and socket.
    pub fn resolve(home: Option<&str>, socket: Option<&str>) -> (result: Result<DaemonConfig, ConfigError>)
        ensures
            config_result_view(result) == resolved(str_view(home), str_view(socket)),
    {
        let home = match home {
            Some(path) => path,
            None => {
                return Err(ConfigError::MissingHome);
            },
        };
        if !absolute(home) {
            return Err(ConfigError::MissingHome);
        }
        let parent = join_path(home, ".jeff");
        let path = match socket {
            Some(path) => {
                if !absolute(path) {
                    return Err(ConfigError::RelativeSocket);
                }
                path.to_owned()
            },
            None => join_path(parent.as_str(), "jeffd.sock"),
        };
        Ok(DaemonConfig::with_paths(home.to_owned(), path, join_path(parent.as_str(), "projects.json")))
    }

    /// What to do about the socket's directory, given its path and whether it
    /// exists.
    pub fn socket_directory_plan(&self, parent: Option<&str>, present: bool) -> (plan: Result<DirectoryPlan, ConfigError>)
        ensures
            parent is None ==> (plan matches Err(error) && error@ == ConfigErrorView::MissingSocketParent),
            parent matches Some(path) ==> plan is Ok && plan->Ok_0 == if !present {
                DirectoryPlan::Create
            } else if same_path(path@, path_joined(self@.home, ".jeff"@)) {
                DirectoryPlan::Restrict
            } else {
                DirectoryPlan::Keep
            },
    {
        match parent {
            None => Err(ConfigError::MissingSocketParent),
            Some(path) => {
                if !present {
                    Ok(DirectoryPlan::Create)
                } else if paths_equal(path, join_path(self.home.as_str(), ".jeff").as_str()) {
                    Ok(DirectoryPlan::Restrict)
                } else {
                    Ok(DirectoryPlan::Keep)
                }
            },
        }
    }

    pub fn snapshot_timeout(&self) -> (span: Duration)
        ensures
            span == self@.snapshot_timeout,
    {
        self.snapshot_timeout
    }

    pub fn debounce_window(&self) -> (span: Duration)
        ensures
            span == self@.debounce_window,
    {
        self.debounce_window
    }

    pub fn frame_limit(&self) -> (limit: usize)
        ensures
            limit == self@.frame_limit,
    {
        self.frame_limit
    }
}

/// Accepts a directory that is the user's and closed to everyone else.
pub fn validate_private_directory(path: &str, facts: &FileFacts, user: u32) -> (r: Result<(), ConfigError>)
    ensures
        r is Ok == (facts.kind == FileKind::Directory && facts.owner == user && facts.private()),
        r matches Err(error) ==> error@ == ConfigErrorView::UnsafeDirectory(path@),
{
    if facts.kind == FileKind::Directory && facts.owner == user && facts.is_private() {
        Ok(())
    } else {
        Err(ConfigError::UnsafeDirectory(path.to_owned()))
    }
}

/// Accepts a directory that is the user's.
pub fn validate_owned_directory(path: &str, facts: &FileFacts, user: u32) -> (r: Result<(), ConfigError>)
    ensures
        r is Ok == (facts.kind == FileKind::Directory && facts.owner == user),
        r matches Err(error) ==> error@ == ConfigErrorView::UnsafeDirectory(path@),
{
    if facts.kind == FileKind::Directory && facts.owner == user {
        Ok(())
    } else {
        Err(ConfigError::UnsafeDirectory(path.to_owned()))
    }
}

/// Every configuration that is resolved has absolute paths.
pub proof fn resolved_paths_are_absolute(home: Option<Seq<char>>, socket: Option<Seq<char>>)
    ensures
        resolved(home, socket) matches Ok(config) ==> is_absolute(config.home) && is_absolute(config.socket) && is_absolute(
            config.registry,
        ),
{
    reveal_strlit(".jeff");
    reveal_strlit("projects.json");
    reveal_strlit("jeffd.sock");
    reveal_strlit("/");
    assert(".jeff"@[0] != '/');
    assert("projects.json"@[0] != '/');
    assert("jeffd.sock"@[0] != '/');
    assert(".jeff"@.len() == 5);
    assert("/"@.len() == 1);
}

} // verus!
