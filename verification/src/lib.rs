//! Lifecycle manager for container images in a Kubernetes cluster: which images of a registry the
//! workloads refer to, what is copied from upstream, and when an image is let go of.

pub mod config;
pub mod controller;
pub mod copying;
pub mod index;
pub mod mirroring;
pub mod naming;
pub mod polling;
pub mod reconcile;
pub mod reference;
pub mod resources;
pub mod sorted;
pub mod text;
pub mod time;
pub mod watch;
pub mod workload;
