//! Error types.

use vstd::prelude::*;
use crate::strings;
use crate::strings::{concat, decimal_string, signed_decimal_string};
use crate::text::str_eq;

verus! {

broadcast use {vstd::string::group_string_axioms, vstd::seq::group_seq_axioms};

/// Structured error payload shared between service and client.
#[derive(Debug)]
pub struct ErrorEnvelope {
    pub code: String,
    pub message: String,
    pub hint: String,
}

impl ErrorEnvelope {
    pub fn new(code: &str, message: &str, hint: &str) -> (r: ErrorEnvelope)
        ensures
            r.code@ == code@,
            r.message@ == message@,
            r.hint@ == hint@,
    {
        ErrorEnvelope {
            code: code.to_owned(),
            message: message.to_owned(),
            hint: hint.to_owned(),
        }
    }

    pub fn stale_generation(expected: u64, found: u64) -> (r: ErrorEnvelope)
        ensures
            r.code@ == "stale_generation"@,
            r.message@ == "Expected generation "@ + strings::decimal(expected as nat) + ", found "@
                + strings::decimal(found as nat),
            r.hint@ == "Call /reindex to get a fresh generation"@,
    {
        let mut message: String = "Expected generation ".to_owned();
        message.append(decimal_string(expected).as_str());
        message.append(", found ");
        message.append(decimal_string(found).as_str());
        ErrorEnvelope::new(
            "stale_generation",
            message.as_str(),
            "Call /reindex to get a fresh generation",
        )
    }

    pub fn internal(msg: &str) -> (r: ErrorEnvelope)
        ensures
            r.code@ == "internal_error"@,
            r.message@ == msg@,
            r.hint@ == "Check service logs for details"@,
    {
        ErrorEnvelope::new("internal_error", msg, "Check service logs for details")
    }
}

/// What can go wrong. Errors from outside are held as their text.
#[allow(inconsistent_fields)]
#[derive(Debug)]
pub enum CanopyError {
    InvalidHandle(String),
    StaleIndex { path: String },
    QueryParse { position: usize, message: String },
    Database(String),
    Io(String),
    FileNotFound(String),
    NotInitialized,
    ConfigExists(String),
    ConfigParse(String),
    GlobPattern(String),
    HandleNotFound(String),
    TreeSitterParse { path: String, message: String },
    SchemaVersionMismatch { found: i32, expected: i32 },
    StaleGeneration { expected: u64, found: u64 },
    NoServiceConfigured,
    ServiceError { code: String, message: String, hint: String },
    Serialization(String),
}

/// Result type alias.
pub type Result<T> = std::result::Result<T, CanopyError>;

impl CanopyError {
    /// The text that describes the error.
    pub open spec fn display(self) -> Seq<char> {
        match self {
            CanopyError::InvalidHandle(id) => "Invalid handle ID: "@ + id@,
            CanopyError::StaleIndex { path } => "Stale index: file "@ + path@
                + " changed since indexing (reindex required)"@,
            CanopyError::QueryParse { position, message } => "Query parse error at position "@
                + strings::decimal(position as nat) + ": "@ + message@,
            CanopyError::Database(e) => "Database error: "@ + e@,
            CanopyError::Io(e) => "IO error: "@ + e@,
            CanopyError::FileNotFound(path) => "File not found: "@ + path@,
            CanopyError::NotInitialized =>
            "Not a canopy repo (no .canopy directory). Run 'canopy init' first."@,
            CanopyError::ConfigExists(path) => "Config already exists at "@ + path@,
            CanopyError::ConfigParse(e) => "Config parse error: "@ + e@,
            CanopyError::GlobPattern(e) => "Glob pattern error: "@ + e@,
            CanopyError::HandleNotFound(id) => "Handle not found: "@ + id@,
            CanopyError::TreeSitterParse { path, message } => "Tree-sitter parse error for "@
                + path@ + ": "@ + message@,
            CanopyError::SchemaVersionMismatch { found, expected } =>
            "Schema version mismatch: database is v"@ + strings::signed_decimal(found as int)
                + ", expected v"@ + strings::signed_decimal(expected as int)
                + ". Run 'canopy invalidate' then 'canopy index' to reindex."@,
            CanopyError::StaleGeneration { expected, found } => "Stale generation: expected "@
                + strings::decimal(expected as nat) + ", found "@ + strings::decimal(found as nat),
            CanopyError::NoServiceConfigured =>
            "No service URL configured — pass --service-url or set CANOPY_SERVICE_URL"@,
            CanopyError::ServiceError { code, message, hint } => "Service error ["@ + code@
                + "]: "@ + message@ + " — "@ + hint@,
            CanopyError::Serialization(e) => "Serialization error: "@ + e@,
        }
    }

    /// The text that describes the error.
    pub fn to_string(&self) -> (r: String)
        ensures
            r@ == self.display(),
    {
        match self {
            CanopyError::InvalidHandle(id) => concat("Invalid handle ID: ", id.as_str()),
            CanopyError::StaleIndex { path } => {
                let mut r: String = concat("Stale index: file ", path.as_str());
                r.append(" changed since indexing (reindex required)");
                r
            },
            CanopyError::QueryParse { position, message } => {
                let mut r: String = concat(
                    "Query parse error at position ",
                    decimal_string(*position as u64).as_str(),
                );
                r.append(": ");
                r.append(message.as_str());
                r
            },
            CanopyError::Database(e) => concat("Database error: ", e.as_str()),
            CanopyError::Io(e) => concat("IO error: ", e.as_str()),
            CanopyError::FileNotFound(path) => concat("File not found: ", path.as_str()),
            CanopyError::NotInitialized =>
            "Not a canopy repo (no .canopy directory). Run 'canopy init' first.".to_owned(),
            CanopyError::ConfigExists(path) => concat("Config already exists at ", path.as_str()),
            CanopyError::ConfigParse(e) => concat("Config parse error: ", e.as_str()),
            CanopyError::GlobPattern(e) => concat("Glob pattern error: ", e.as_str()),
            CanopyError::HandleNotFound(id) => concat("Handle not found: ", id.as_str()),
            CanopyError::TreeSitterParse { path, message } => {
                let mut r: String = concat("Tree-sitter parse error for ", path.as_str());
                r.append(": ");
                r.append(message.as_str());
                r
            },
            CanopyError::SchemaVersionMismatch { found, expected } => {
                let mut r: String = concat(
                    "Schema version mismatch: database is v",
                    signed_decimal_string(*found as i64).as_str(),
                );
                r.append(", expected v");
                r.append(signed_decimal_string(*expected as i64).as_str());
                r.append(". Run 'canopy invalidate' then 'canopy index' to reindex.");
                r
            },
            CanopyError::StaleGeneration { expected, found } => {
                let mut r: String = concat(
                    "Stale generation: expected ",
                    decimal_string(*expected).as_str(),
                );
                r.append(", found ");
                r.append(decimal_string(*found).as_str());
                r
            },
            CanopyError::NoServiceConfigured =>
            "No service URL configured — pass --service-url or set CANOPY_SERVICE_URL".to_owned(),
            CanopyError::ServiceError { code, message, hint } => {
                let mut r: String = concat("Service error [", code.as_str());
                r.append("]: ");
                r.append(message.as_str());
                r.append(" — ");
                r.append(hint.as_str());
                r
            },
            CanopyError::Serialization(e) => concat("Serialization error: ", e.as_str()),
        }
    }
}

/// Whether an error is a service error with the given code.
pub open spec fn has_code(err: CanopyError, code: Seq<char>) -> bool {
    err matches CanopyError::ServiceError { code: c, .. } && c@ == code
}

/// Whether an error is a service error with the given code.
pub fn is_error_code(err: &CanopyError, code: &str) -> (r: bool)
    ensures
        r == has_code(*err, code@),
{
    match err {
        CanopyError::ServiceError { code: c, .. } => str_eq(c.as_str(), code),
        _ => false,
    }
}

/// Whether a text has one text and then another in it.
pub open spec fn tells_in_order(s: Seq<char>, a: Seq<char>, b: Seq<char>) -> bool {
    exists|i: int, j: int|
        #![trigger s.subrange(i, i + a.len()), s.subrange(j, j + b.len())]
        0 <= i && i + a.len() <= j && j + b.len() <= s.len() && s.subrange(i, i + a.len()) == a
            && s.subrange(j, j + b.len()) == b
}

proof fn lemma_tells(x: Seq<char>, a: Seq<char>, y: Seq<char>, b: Seq<char>, z: Seq<char>)
    ensures
        tells_in_order(x + a + y + b + z, a, b),
{
    let s = x + a + y + b + z;
    let i = x.len() as int;
    let j = i + a.len() + y.len();
    assert(s.subrange(i, i + a.len()) =~= a);
    assert(s.subrange(j, j + b.len()) =~= b);
}

/// What an error with two parts tells: where a query went wrong and how, what file could
/// not be parsed and why, which version and generation was met or wanted, and the code,
/// message and hint of the service, in this order.
pub proof fn law_errors_tell(e: CanopyError)
    ensures
        e matches CanopyError::QueryParse { position, message } ==> tells_in_order(
            e.display(),
            strings::decimal(position as nat),
            message@,
        ),
        e matches CanopyError::TreeSitterParse { path, message } ==> tells_in_order(
            e.display(),
            path@,
            message@,
        ),
        e matches CanopyError::SchemaVersionMismatch { found, expected } ==> tells_in_order(
            e.display(),
            "database is v"@ + strings::signed_decimal(found as int),
            "expected v"@ + strings::signed_decimal(expected as int),
        ),
        e matches CanopyError::StaleGeneration { expected, found } ==> tells_in_order(
            e.display(),
            "expected "@ + strings::decimal(expected as nat),
            "found "@ + strings::decimal(found as nat),
        ),
        e matches CanopyError::ServiceError { code, message, hint } ==> tells_in_order(
            e.display(),
            code@,
            message@,
        ) && tells_in_order(e.display(), message@, hint@),
{
    match e {
        CanopyError::QueryParse { position, message } => {
            lemma_two_parts(
                "Query parse error at position "@,
                strings::decimal(position as nat),
                ": "@,
                message@,
            );
        },
        CanopyError::TreeSitterParse { path, message } => {
            lemma_two_parts("Tree-sitter parse error for "@, path@, ": "@, message@);
        },
        CanopyError::SchemaVersionMismatch { found, expected } => {
            lemma_versions_told(
                strings::signed_decimal(found as int),
                strings::signed_decimal(expected as int),
            );
        },
        CanopyError::StaleGeneration { expected, found } => {
            lemma_generations_told(
                strings::decimal(expected as nat),
                strings::decimal(found as nat),
            );
        },
        CanopyError::ServiceError { code, message, hint } => {
            lemma_service_told(code@, message@, hint@);
        },
        _ => {},
    }
}

proof fn lemma_two_parts(x: Seq<char>, a: Seq<char>, y: Seq<char>, b: Seq<char>)
    ensures
        tells_in_order(x + a + y + b, a, b),
{
    let none = Seq::<char>::empty();
    lemma_tells(x, a, y, b, none);
    assert(x + a + y + b + none =~= x + a + y + b);
}

proof fn lemma_versions_told(a: Seq<char>, b: Seq<char>)
    ensures
        tells_in_order(
            "Schema version mismatch: database is v"@ + a + ", expected v"@ + b
                + ". Run 'canopy invalidate' then 'canopy index' to reindex."@,
            "database is v"@ + a,
            "expected v"@ + b,
        ),
{
    reveal_strlit("Schema version mismatch: database is v");
    reveal_strlit("Schema version mismatch: ");
    reveal_strlit("database is v");
    reveal_strlit(", expected v");
    reveal_strlit(", ");
    reveal_strlit("expected v");
    let z = ". Run 'canopy invalidate' then 'canopy index' to reindex."@;
    assert("Schema version mismatch: "@ + "database is v"@
        =~= "Schema version mismatch: database is v"@);
    assert(", "@ + "expected v"@ =~= ", expected v"@);
    lemma_tells_led("Schema version mismatch: "@, "database is v"@, a, ", "@, "expected v"@, b, z);
}

proof fn lemma_generations_told(a: Seq<char>, b: Seq<char>)
    ensures
        tells_in_order(
            "Stale generation: expected "@ + a + ", found "@ + b,
            "expected "@ + a,
            "found "@ + b,
        ),
{
    reveal_strlit("Stale generation: expected ");
    reveal_strlit("Stale generation: ");
    reveal_strlit("expected ");
    reveal_strlit(", found ");
    reveal_strlit(", ");
    reveal_strlit("found ");
    let none = Seq::<char>::empty();
    assert("Stale generation: "@ + "expected "@ =~= "Stale generation: expected "@);
    assert(", "@ + "found "@ =~= ", found "@);
    lemma_tells_led("Stale generation: "@, "expected "@, a, ", "@, "found "@, b, none);
    let told = "Stale generation: expected "@ + a + ", found "@ + b;
    assert(told + none =~= told);
}

/// Two parts, each with what leads to it, are told in order.
proof fn lemma_tells_led(
    x: Seq<char>,
    p: Seq<char>,
    a: Seq<char>,
    y: Seq<char>,
    q: Seq<char>,
    b: Seq<char>,
    z: Seq<char>,
)
    ensures
        tells_in_order((x + p) + a + (y + q) + b + z, p + a, q + b),
{
    lemma_tells(x, p + a, y, q + b, z);
    assert(x + (p + a) + y + (q + b) + z =~= (x + p) + a + (y + q) + b + z);
}

proof fn lemma_service_told(code: Seq<char>, message: Seq<char>, hint: Seq<char>)
    ensures
        ({
            let told = "Service error ["@ + code + "]: "@ + message + " — "@ + hint;
            tells_in_order(told, code, message) && tells_in_order(told, message, hint)
        }),
{
    let none = Seq::<char>::empty();
    let told = "Service error ["@ + code + "]: "@ + message + " — "@ + hint;
    lemma_tells("Service error ["@, code, "]: "@, message, " — "@ + hint);
    lemma_tells("Service error ["@ + code + "]: "@, message, " — "@, hint, none);
    assert("Service error ["@ + code + "]: "@ + message + (" — "@ + hint) =~= told);
    assert(told + none =~= told);
}

} // verus!
