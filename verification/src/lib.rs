//! A small query-language engine: a schema description language and a
//! query language over it, with a tokenizer, two recursive-descent
//! parsers, a validator that collects every diagnostic, and an executor
//! that resolves fields through caller-supplied capability objects.

use vstd::prelude::*;

pub mod execution;
pub mod laws;
pub mod lexer;
pub mod numtext;
pub mod parse_base;
pub mod parse_idl;
pub mod parse_query;
pub mod query;
pub mod result;
pub mod schema;
pub mod token;
pub mod types;
pub mod validation;

pub use parse_idl::parse_schema;
pub use parse_query::parse_query;

verus! {

/// What the engine hands back when a request cannot be served.
pub type QlResult<T> = Result<T, QlError>;

/// A parse failure, carrying a fixed diagnostic chosen where the parser
/// gave up.
#[derive(Debug)]
pub struct ParseError(pub &'static str);

/// The engine's failure taxonomy.
///
/// Lexing, parsing, value coercion and execution fail fast: the first
/// failure aborts the request. Validation is batched and returns every
/// diagnostic found. `ServerError` wraps a failure raised by caller
/// resolver code, as its text.
#[derive(Debug)]
pub enum QlError {
    LexError(lexer::LexError),
    ParseError(ParseError),
    ValidationError(Vec<validation::Error>),
    ExecutionError(String),
    TranslationError(String, String),
    ResolveError(&'static str, String, Option<String>),
    ServerError(String),
}

/// Serves one request: the text is parsed, the operation validated
/// against the schema, and only then executed against the root object.
/// Parsing and validation behave exactly as their specifications
/// describe; a valid request's result is whatever one `resolve` call on
/// the parsed top-level field list returned — the root's to decide.
/// The mutation placeholder is reported as an execution error.
pub fn handle_query<R: query::Root>(query: &str, schema: &schema::Schema, root: R) -> (r: QlResult<
    result::Value,
>)
    requires
        schema@.contains_key("schema"@),
    ensures
        lexer::lex_of(lexer::trim_of(query@)) matches Err(le) ==> (r matches Err(e) && e matches
            QlError::LexError(le2) && le2 == le),
        lexer::lex_of(lexer::trim_of(query@)) matches Ok(ts) ==> match parse_query::spec_parse_operation(
            ts,
        ) {
            Err(m) => r matches Err(e) && (e matches QlError::ParseError(p) && p.0@ == m),
            Ok(qv) => {
                &&& qv is Mutation ==> (r matches Err(e) && e is ExecutionError)
                &&& ((qv is Query && validation::spec_validate_query(qv->Query_0, schema@).len()
                    > 0) ==> (r matches Err(e) && (e matches QlError::ValidationError(v) && v@
                    == validation::spec_validate_query(qv->Query_0, schema@))))
                &&& ((qv is Query && validation::spec_validate_query(qv->Query_0, schema@).len()
                    == 0) ==> exists|rt: &R, fs: &[query::Field], out: QlResult<result::Value>|
                    {
                        &&& #[trigger] call_ensures(
                            <R as result::Resolve>::resolve,
                            (rt, fs),
                            out,
                        )
                        &&& query::qfields_view(fs@) == qv->Query_0
                        &&& r == out
                    })
            },
        },
{
    let q = match query::Query::parse(query) {
        Ok(q) => q,
        Err(e) => {
            return Err(e);
        }
    };
    if let query::Query::Mutation = &q {
        return Err(QlError::ExecutionError("mutation is not implemented".to_owned()));
    }
    match q.validate(schema) {
        Ok(()) => {}
        Err(e) => {
            return Err(e);
        }
    }
    q.execute(schema, root)
}

} // verus!
