//! Event dispatch for chat bots: typed argument parsing, handler routing and
//! the decisions of the event loop, each with a verified contract.

pub mod args;
pub mod context;
pub mod dispatch;
pub mod error;
pub mod login;
pub mod table;
pub mod text;
pub mod values;

pub use crate::args::{bind_fields, Args, ArgShape, FieldKind, FromArgs, RawArgs, ScalarKind};
pub use crate::context::{
    all_well_formed, args_of, ChatKind, Data, DataStore, MediaKind, MessageInfo, Param, ReplyKind,
};
pub use crate::dispatch::{loop_step, step, Action, Fetched, LoopAction, Phase, Signal};
pub use crate::error::GrammersthonError;
pub use crate::login::{login_step, LoginAction, LoginConfig, LoginEvent, LoginPhase};
pub use crate::table::{filters_compile, HandlerFilter, HandlerWrap, Handlers, Route};
pub use crate::values::{
    choose_name, first_equal, flag_of_lower, parse_char, parse_flag, parse_integer, parse_unsigned,
    trim,
};
