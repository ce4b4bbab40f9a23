//! Built-in scheduler implementations.

pub mod laws;
pub mod minrtt;
pub mod round_robin;

pub use minrtt::MinRttScheduler;
pub use minrtt::MinRttSchedulerFactory;
pub use round_robin::RoundRobinScheduler;
pub use round_robin::RoundRobinSchedulerFactory;
