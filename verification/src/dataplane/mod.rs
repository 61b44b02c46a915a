pub mod poll;
