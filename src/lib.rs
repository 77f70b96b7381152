//! Request-routing core of a reverse-proxy gateway in front of a fleet of
//! content-storage backends: the backend registry, health bookkeeping,
//! load-balancing strategies, route resolution, forward-URI rewriting and
//! the decisions of the per-token rate limiter.

pub mod text;
pub mod table;
pub mod backend;
pub mod routing;
pub mod load_balancer;
pub mod health;
pub mod proxy;
pub mod rate_limiter;
pub mod config;
