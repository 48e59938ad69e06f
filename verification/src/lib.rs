//! The core of the `aush` shell, verified: how command lines are lexed and
//! highlighted, how words are expanded, where redirected output goes, how
//! history, corrections and suggestions behave, which commands need
//! approval, and how structured values are shown.
pub mod text;
pub mod expansion;
pub mod hooks;
pub mod intent;
pub mod approval;
pub mod error;
pub mod error_formatter;
pub mod correction;
pub mod suggestions;
pub mod history;
pub mod value;
pub mod scan;
pub mod lexer;
pub mod highlight;
pub mod table;
pub mod braced;
pub mod prompt;
pub mod literal;
pub mod substitution;
pub mod process_subst;
pub mod redirect;
pub mod structured;
pub mod info;
pub mod executor;
pub mod loops;
pub mod case_match;
pub mod streams;
pub mod dispatch;
pub mod fds;
pub mod resolve;
pub mod spawn;
