//! What can go wrong with the daemon as a whole.

use crate::config::{config_error_text, ConfigError, ConfigErrorView};
use crate::lifecycle::{lifecycle_error_text, LifecycleError, LifecycleErrorView};
use crate::text::joined;
use vstd::prelude::*;

verus! {

/// Why the daemon stopped serving.
#[derive(Debug, PartialEq, Eq)]
pub enum ServerError {
    Registry(String),
    Watch(String),
    Io(String),
}

pub enum ServerErrorView {
    Registry(Seq<char>),
    Watch(Seq<char>),
    Io(Seq<char>),
}

impl View for ServerError {
    type V = ServerErrorView;

    open spec fn view(&self) -> ServerErrorView {
        match self {
            ServerError::Registry(message) => ServerErrorView::Registry(message@),
            ServerError::Watch(message) => ServerErrorView::Watch(message@),
            ServerError::Io(message) => ServerErrorView::Io(message@),
        }
    }
}

pub open spec fn server_error_text(error: ServerErrorView) -> Seq<char> {
    match error {
        ServerErrorView::Registry(message) => "project registry failed: "@ + message,
        ServerErrorView::Watch(message) => "filesystem watcher failed: "@ + message,
        ServerErrorView::Io(message) => "socket server failed: "@ + message,
    }
}

impl ServerError {
    pub fn message(&self) -> (text: String)
        ensures
            text@ == server_error_text(self@),
    {
        match self {
            ServerError::Registry(message) => joined("project registry failed: ", message.as_str()),
            ServerError::Watch(message) => joined("filesystem watcher failed: ", message.as_str()),
            ServerError::Io(message) => joined("socket server failed: ", message.as_str()),
        }
    }
}

/// Why a command of the daemon failed.
#[derive(Debug, PartialEq, Eq)]
pub enum DaemonError {
    Config(ConfigError),
    Lifecycle(LifecycleError),
    Server(ServerError),
}

pub enum DaemonErrorView {
    Config(ConfigErrorView),
    Lifecycle(LifecycleErrorView),
    Server(ServerErrorView),
}

impl View for DaemonError {
    type V = DaemonErrorView;

    open spec fn view(&self) -> DaemonErrorView {
        match self {
            DaemonError::Config(error) => DaemonErrorView::Config(error@),
            DaemonError::Lifecycle(error) => DaemonErrorView::Lifecycle(error@),
            DaemonError::Server(error) => DaemonErrorView::Server(error@),
        }
    }
}

pub open spec fn daemon_error_text(error: DaemonErrorView) -> Seq<char> {
    match error {
        DaemonErrorView::Config(error) => "configuration error: "@ + config_error_text(error),
        DaemonErrorView::Lifecycle(error) => "lifecycle error: "@ + lifecycle_error_text(error),
        DaemonErrorView::Server(error) => "daemon error: "@ + server_error_text(error),
    }
}

impl DaemonError {
    /// What the operator is told.
    pub fn message(&self) -> (text: String)
        ensures
            text@ == daemon_error_text(self@),
    {
        match self {
            DaemonError::Config(error) => joined("configuration error: ", error.message().as_str()),
            DaemonError::Lifecycle(error) => joined("lifecycle error: ", error.message().as_str()),
            DaemonError::Server(error) => joined("daemon error: ", error.message().as_str()),
        }
    }
}

} // verus!
