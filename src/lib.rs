pub mod cdn;
pub mod channel;
pub mod event_loop;
pub mod history;
pub mod intake;
