pub mod artifact;
pub mod chain;
pub mod compare;
pub mod display;
pub mod options;
pub mod pem;
pub mod resolve;
