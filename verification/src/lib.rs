//! Logic of an updater for Debian-family systems: reading the output of
//! apt, dpkg, snap, flatpak and PackageKit, deciding the state of each
//! health check, and the whitelisted maintenance commands.
pub mod history;
pub mod text;
pub mod health;
pub mod privileged;
pub mod snapd;
pub mod flatpak;
pub mod packagekit;
pub mod system;
