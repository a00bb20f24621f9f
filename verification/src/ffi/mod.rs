pub mod cxx_bridge;
