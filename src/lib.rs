//! An embedded command shell's core logic: pipeline stage normalization,
//! launch planning and callback dispatch, plus the text analysis used by the
//! interactive prompt and the script front end.

pub mod text;
pub mod decimal;
pub mod stage;
pub mod launch;
pub mod dispatch;
pub mod completeness;
pub mod string_utils;
pub mod dyn_format;
pub mod cmd_line;
pub mod preprocessor;
pub mod strings;
