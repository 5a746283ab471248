//! What holds of the library as a whole, proved from what its functions state.
pub mod connection;
pub mod course;
pub mod dial;
pub mod event;
pub mod inputs;
pub mod lines;
pub mod reading;
pub mod request;
pub mod run;
pub mod status;
pub mod timing;
pub mod views;
pub mod wire;
pub mod words;
