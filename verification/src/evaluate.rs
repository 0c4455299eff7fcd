pub mod shared;
