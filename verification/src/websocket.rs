pub mod message;
pub mod upgrade;
