//! What the operations of the library are for, said of whatever they return.
//!
//! Each law takes the arguments of an operation and a result that its contract allows, and says what
//! then holds, in terms of the arguments and the result.
pub mod books;
pub mod covers;
pub mod device;
pub mod downloads;
pub mod pages;
pub mod requests;
pub mod settings;
pub mod speech;
pub mod texts;
pub mod work;
