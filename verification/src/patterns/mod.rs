pub mod gen_server;
pub mod gen_statem;
pub mod net_kernel;
pub mod pipeline;
pub mod pubsub;
pub mod router_dealer;
