//! Supervisor and tooling core for the wintermute fleet.
//!
//! The supervisor starts the fleet's children, notices when they are gone and
//! starts them again; the watchdog recovers failed units; the doctor and the
//! readiness checks look at an installation; the kiosk and convention modules
//! plan one. Everything that touches the host is handed in by the caller, and
//! every function states what it does with the answers.

pub mod calendar;
pub mod cli;
pub mod cli_laws;
pub mod clock;
pub mod commands;
pub mod convention_laws;
pub mod doctor;
pub mod doctor_laws;
pub mod env_config;
pub mod escalation;
pub mod files;
pub mod fleet;
pub mod format_laws;
pub mod install_convention;
pub mod kiosk;
pub mod line_laws;
pub mod logs;
pub mod model_laws;
pub mod number;
pub mod order;
pub mod pass_laws;
pub mod passes;
pub mod probe_laws;
pub mod protocol;
pub mod ready;
pub mod ready_laws;
pub mod recovery_laws;
pub mod request_laws;
pub mod restart;
pub mod rewrite_laws;
pub mod slot_laws;
pub mod spawn;
pub mod string_map;
pub mod supervisor;
pub mod systemctl;
pub mod systemctl_laws;
pub mod text;
pub mod text_laws;
pub mod tracker_laws;
pub mod watchdog;
pub mod watchdog_laws;

pub use clock::{Duration, Instant};
pub use env_config::EnvConfig;
pub use files::{child_log_path_with, socket_path_with, FileRead};
pub use fleet::{
    canonical_children, ChildSpec, BACKOFF_SECS, BOOTSTRAP_ENV_OVERRIDE_VAR, BOOTSTRAP_ENV_PATH,
    CHILD_STARTUP_ORDER, ESCALATION_MINS, NO_BOOTSTRAP_MESSAGE, RESTART_STORM_THRESHOLD,
    RESTART_WINDOW_SECS,
};
pub use logs::tail_child_log_with;
pub use restart::RestartTracker;
