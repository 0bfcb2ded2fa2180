//! Arcaea: the verified core of the Arcaea configuration language (lexer,
//! parser, interpreter, code generator, language-server diagnostics and system
//! rebuild planning), of the ACTP component compiler, and of the arcaeaOS
//! kernel data structures.
mod text;
mod token;
mod ast;
mod grammar;
mod parser;
mod lexer;
mod semantics;
mod names;
mod interpreter;
mod actp;
mod codegen;
mod lsp;
mod rebuild;
mod report;
mod run;
mod modules;
mod program_text;
mod diagnose;
pub mod kernel;

pub use text::{string_from_chars, i64_to_string, u64_to_string, chars_of};
pub use token::{Token, SToken, spec_token_text};
pub use ast::{
    Expr, Stmt, FuncParam, FuncDecl, BridgeParam, ConfigItem, SystemUnit, TopLevel, SExpr, SStmt,
    SFuncParam, SFuncDecl, SBridgeParam, SConfigItem, SSystemUnit, STopLevel, duplicate_exprs,
    duplicate_stmts,
};
pub use parser::{parser, ArcParser, ParseError, tok_eq, x_expr};
pub use lexer::{tokenize, try_tokenize, tokenize_spanned, SpannedToken, law_display_text_lexes_back};
pub use names::NameMap;
pub use interpreter::{Value, ExecutionResult, FloatHost, EvalError, Environment, STEP_LIMIT};
pub use run::RunEvent;
pub use actp::{
    Channel, ArcaeaComponent, EnvironmentConfig, parse_arcaea_source, try_parse_arcaea_source,
    fsm_prune_components, generate_rust_code, split_lines,
};
pub use codegen::compile_to_llvm_ir;
pub use lsp::{Position, Diagnostic, offset_to_position, document_diagnostics, compose_message};
pub use diagnose::{program_failure, ParseFailure};
pub use rebuild::{generation_id, package_plans, PackagePlan, BuildKind};
pub use report::{debug_text, ReportPiece, SPiece};
pub use modules::{ModuleLoader, LoadAction, SLoadAction, SFrame, spec_next, frame_items, total_items, law_module_begun_once, law_next_keeps_items, load_items, drive, extends, law_load_splices_used_modules};
pub use program_text::program_debug_text;
