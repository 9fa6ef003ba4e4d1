//! Verified core of the ApplyMonitor job-application tracker.

pub mod text;
pub mod system_email;
pub mod contacts;
pub mod people;
pub mod timeline;
pub mod jobs;
pub mod password;
pub mod oidc;
pub mod accounts;
pub mod ai;
pub mod dates;
pub mod ui;
