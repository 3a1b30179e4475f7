//! Multi-WAN failover for Linux routers: the decisions, the message formats and
//! the state machines of the daemon.

pub mod addr;
pub mod config;
pub mod config_laws;
pub mod errno;
pub mod failover;
pub mod failover_laws;
pub mod lqe;
pub mod lqe_laws;
pub mod netlink;
pub mod plan;
pub mod plan_laws;
pub mod prober;
pub mod prober_laws;
pub mod worker;
pub mod worker_laws;
