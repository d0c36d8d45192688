pub mod pages;
pub mod room;
pub mod shared;
pub mod spotify;
pub mod types;
pub mod web;
pub mod login;
pub mod laws;
