//! Parsers for proxy rule lines (`<source-uri> <target-uri> [name://value]*`)
//! and a segmenter that splits a loosely formatted document into lines and
//! fenced code blocks. Every parser is stated as a function on character
//! sequences and proved to compute exactly that function.

pub mod error;
pub mod laws;
pub mod markdown_values;
pub mod proxy;
pub mod rule;
pub mod template;
pub mod text;
pub mod uri;

pub use error::{CustomError, ParseFailure};
pub use proxy::{parse_proxy_rule, ProxyRule};
pub use rule::{parse_rule, parse_rule_value, OpValue, Rule};
pub use template::{parse_template_string, TemplatePart, TemplateString};
pub use uri::{parse_uri, Uri};
