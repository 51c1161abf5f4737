use vstd::prelude::*;
use crate::error::Error;
use crate::value::value_model;
use crate::value::wf;
use crate::value::Val;
use crate::value::Node;

verus! {

#[verifier::external_type_specification]
#[verifier::external_body]
pub struct ExTomlValue(toml::Value);

/// The tree a document text denotes, if it is a well-formed document. The
/// grammar is the document format's own; parsing is a function of the text
/// alone.
pub uninterp spec fn parsed_doc(text: Seq<char>) -> Option<Val>;

/// The tree held inside an outside document value.
pub uninterp spec fn toml_model(v: toml::Value) -> Val;

/// Relies on toml's document parser, `str::parse::<toml::Table>`: it parses
/// the text as a whole document, deterministically from the text alone; a
/// parsed document is a table at its root, and its tables map each key once.
#[verifier::external_body]
fn parse_raw(text: &str) -> (r: Result<toml::Value, String>)
    ensures
        r is Ok <==> parsed_doc(text@) is Some,
        r matches Ok(v) ==> toml_model(v) == parsed_doc(text@)->Some_0 && wf(toml_model(v))
            && toml_model(v) is Table,
{
    match text.parse::<toml::Table>() {
        Ok(t) => Ok(toml::Value::Table(t)),
        Err(e) => Err(e.to_string()),
    }
}

/// Relies on the shape of toml's value model: every variant carries exactly
/// what the engine's corresponding variant carries — floats come over as
/// their bit pattern, datetimes as their text, tables entry by entry.
#[verifier::external_body]
fn lift_toml(v: toml::Value) -> (r: Node)
    ensures
        value_model(r) == toml_model(v),
{
    match v {
        toml::Value::String(s) => Node::Text(s),
        toml::Value::Integer(i) => Node::Int(i),
        toml::Value::Float(x) => Node::Float(x.to_bits()),
        toml::Value::Boolean(b) => Node::Bool(b),
        toml::Value::Datetime(d) => Node::Timestamp(d.to_string()),
        toml::Value::Array(xs) => Node::Sequence(xs.into_iter().map(lift_toml).collect()),
        toml::Value::Table(t) => Node::Table(
            t.into_iter().map(|(k, x)| (k, lift_toml(x))).collect(),
        ),
    }
}

/// Parse a document text into a tree: the root is a table with unique keys
/// throughout; malformed text is a parse error.
pub fn parse_document(text: &str) -> (r: Result<Node, Error>)
    ensures
        r is Ok <==> parsed_doc(text@) is Some,
        r matches Ok(v) ==> value_model(v) == parsed_doc(text@)->Some_0 && wf(value_model(v))
            && value_model(v) is Table,
        r matches Err(e) ==> e is Parse,
{
    match parse_raw(text) {
        Ok(raw) => Ok(lift_toml(raw)),
        Err(m) => Err(Error::Parse(m)),
    }
}

/// The pattern text, and each of its path components, parse as glob
/// patterns — a property of the text alone.
pub uninterp spec fn glob_pattern_ok(pattern: Seq<char>) -> bool;

/// Relies on glob::glob: it fails exactly when the pattern itself is
/// malformed — it validates the pattern and its components before touching
/// the disk — and otherwise walks the filesystem for matching paths. What
/// comes back on success depends on what is on disk, so nothing is claimed
/// of the matches themselves.
#[verifier::external_body]
pub fn glob_matches(pattern: &str) -> (r: Option<Vec<String>>)
    ensures
        r is Some <==> glob_pattern_ok(pattern@),
{
    match glob::glob(pattern) {
        Ok(paths) => Some(
            paths.filter_map(|p| p.ok()).map(|p| p.display().to_string()).collect(),
        ),
        Err(_) => None,
    }
}

} // verus!
