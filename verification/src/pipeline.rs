pub mod syntax;
pub mod unify;
pub mod vector;
