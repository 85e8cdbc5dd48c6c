pub mod value;
pub mod env;
pub mod semantics;
pub mod eval;
pub mod laws;
pub mod parser;

pub use env::{Env, EnvType, Envs, ROOT};
pub use eval::{eval, eval_depth, ErrorKind, EvalError, MAX_DEPTH};
pub use parser::{get_next_symbol, parse, parse_i64, tokenize, ParseError, ParseErrorKind, Token};
pub use semantics::{FloatOp, Kind};
pub use value::Object;
