pub mod simulator;
