//! The netlink protocol: message layout, routes, link events and connection tracking.

pub mod apply;
pub mod apply_laws;
pub mod apply_trace_laws;
pub mod cleanup;
pub mod cleanup_laws;
pub mod cleanup_run_laws;
pub mod cleanup_trace_laws;
pub mod conntrack;
pub mod conntrack_laws;
pub mod group_laws;
pub mod link;
pub mod link_laws;
pub mod manager;
pub mod message;
pub mod message_laws;
pub mod probe_laws;
pub mod probe_path;
pub mod probe_run_laws;
pub mod probe_trace_laws;
pub mod reply;
pub mod reply_laws;
pub mod request;
pub mod request_laws;
pub mod route;
pub mod sweep_laws;
pub mod text;
pub mod util;
pub mod util_laws;
