//! From source text to a syntax tree.
pub mod grammar;
pub mod implicit_blocks;
pub mod lexer;
pub mod parse_error;
pub mod parser;
pub mod printer;
pub mod syntax_tree;
pub mod tree_model;
pub mod tree_store;

pub use self::grammar::{Pair, RainbowGrammar, Rule};
pub use self::implicit_blocks::rewrite;
pub use self::lexer::{lex, Lexer, Token, TokenKind};
pub use self::parse_error::{ParseError, SyntaxProblem};
pub use self::parser::parse;
pub use self::syntax_tree::{NodeData, NodeType, SyntaxTree};
pub use id_tree::NodeId;
