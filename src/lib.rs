//! Verified core of a command interpreter for networked SwitchBot devices:
//! device selection with aliases, the textual command, condition and branch
//! grammars, dispatch aggregation and the interactive session.
pub mod alias;
pub mod args;
pub mod branch;
pub mod command_request;
pub mod conditional_expression;
pub mod device;
pub mod dispatch;
pub mod help;
pub mod markdown;
pub mod number;
pub mod selector;
pub mod service;
pub mod session;
pub mod signing;
pub mod text;
pub mod user_input;

pub use alias::AliasTable;
pub use args::Args;
pub use branch::parse_if_expr;
pub use command_request::CommandRequest;
pub use conditional_expression::{
    ConditionError, ConditionExpression, ConditionalExpression, Operator, StatusValue,
};
pub use device::{Device, DeviceList};
pub use dispatch::{command_delay, is_parallel, plan, DispatchPlan, Step};
pub use help::{CommandHelp, Help, HelpLoader, Section};
pub use markdown::Markdown;
pub use selector::{resolve, SelectorError};
pub use service::{body_from_response, SwitchBotError};
pub use session::{Action, LineOutcome, Session};
pub use signing::signature;
pub use user_input::UserInput;
