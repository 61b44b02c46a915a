pub mod stage2;
