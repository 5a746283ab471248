//! Control of a Denon AVR over its Ethernet port: the receiver's main zone,
//! by lines that end in a carriage return.
//!
//! The crate holds what such a connection says and decides. It reads no clock
//! and opens no socket: the owner of the connection performs the reads, writes
//! and pauses that a [`Step`] asks for and hands back what came of them.
//! Commands are never sent a second time.
pub mod client;
pub mod command;
pub mod decibels;
pub mod dial;
pub mod error;
pub mod exchange;
pub mod laws;
pub mod line;
pub mod settings;
pub mod sources;
pub mod state;
pub mod text;

pub use client::{Client, ClientView, FRESH, TIMEOUT};
pub use command::{volume, Command, CommandView};
pub use decibels::Decibels;
pub use dial::{Attempt, Dial, Turn, TurnView};
pub use error::{Error, Fault, FaultKind};
pub use exchange::{
    Errand, ErrandView, Listening, ListeningView, Question, QuestionView, Reply, ReplyView,
    Sending, SendingView, Step, StepView,
};
pub use line::{next_line, Reading, ReadingView};
pub use settings::{Settings, DEFAULT_PORT};
pub use sources::source;
pub use state::{apply, Key, Report, State, StateView};
pub use text::token;
