pub mod boot;
pub mod dataplane;
pub mod hw;
pub mod mm;
