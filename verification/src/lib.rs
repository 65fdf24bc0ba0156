pub mod model;
pub mod props;
pub mod scan;
pub mod types;

pub use scan::expand_tabs;
pub use scan::lex;
pub use types::LexError;
pub use types::Span;
pub use types::Token;
pub use types::TokenType;
pub use types::TokenView;
