pub mod pairing;
pub mod pqc;
pub mod simple_secrets;
