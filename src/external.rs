//! The outside crates this library relies on, and what it assumes of them.

use vstd::prelude::*;
use crate::schema::{CompileError, Schema};
use crate::tree::{Tree, TreeView};
use crate::validate::{Violation, ViolationKind};
use jsonschema::error::ValidationErrorKind;

verus! {

#[verifier::external_type_specification]
#[verifier::external_body]
pub struct ExNumber(serde_json::Number);

#[verifier::external_type_specification]
#[verifier::external_body]
pub struct ExValue(serde_json::Value);

#[verifier::external_type_specification]
#[verifier::external_body]
pub struct ExJSONSchema(jsonschema::JSONSchema);

/// Carries a `serde_json::Value` over into a tree, variant for variant.
#[verifier::external_body]
fn tree_of_value(v: serde_json::Value) -> Tree {
    match v {
        serde_json::Value::Null => Tree::Null,
        serde_json::Value::Bool(b) => Tree::Bool(b),
        serde_json::Value::Number(n) => Tree::Number(n),
        serde_json::Value::String(s) => Tree::Text(s),
        serde_json::Value::Array(a) => Tree::List(a.into_iter().map(tree_of_value).collect()),
        serde_json::Value::Object(m) => Tree::Mapping(
            m.into_iter().map(|(k, x)| (k, tree_of_value(x))).collect(),
        ),
    }
}

/// Carries a tree over into a `serde_json::Value`, variant for variant; the
/// entries of a mapping are inserted in order. The value depends on what the
/// tree holds alone, that is on its view.
#[verifier::external_body]
fn value_of_tree(t: &Tree) -> serde_json::Value {
    match t {
        Tree::Null => serde_json::Value::Null,
        Tree::Bool(b) => serde_json::Value::Bool(*b),
        Tree::Number(n) => serde_json::Value::Number(n.clone()),
        Tree::Text(s) => serde_json::Value::String(s.clone()),
        Tree::List(xs) => serde_json::Value::Array(xs.iter().map(value_of_tree).collect()),
        Tree::Mapping(es) => serde_json::Value::Object(
            es.iter().map(|(k, x)| (k.clone(), value_of_tree(x))).collect(),
        ),
    }
}

/// The tree that serde_yaml reads from `text`, or `None` where the text is not
/// well-formed YAML.
pub uninterp spec fn yaml_tree(text: Seq<char>) -> Option<Tree>;

/// Relies on `serde_yaml::from_str::<serde_json::Value>`: it reads the text
/// alone, so equal texts give equal trees.
#[verifier::external_body]
pub(crate) fn parse_yaml(text: &str) -> (r: Option<Tree>)
    ensures
        r == yaml_tree(text@),
{
    serde_yaml::from_str::<serde_json::Value>(text).ok().map(tree_of_value)
}

/// How jsonschema's draft 7 compilation of the document `doc` fails: the
/// schema path, the kind as debug text, and the instance path of the error it
/// reports; `None` where it compiles.
pub uninterp spec fn draft7_compile_error(doc: TreeView) -> Option<(Seq<char>, Seq<char>, Seq<char>)>;

/// Relies on `jsonschema::JSONSchema::options().with_draft(Draft::Draft7).compile`:
/// whether it succeeds, and the error it reports, depend on the document alone.
#[verifier::external_body]
pub(crate) fn compile_draft7(doc: &Tree) -> (r: Result<jsonschema::JSONSchema, CompileError>)
    ensures
        match r {
            Ok(_) => draft7_compile_error(doc@) is None,
            Err(e) => draft7_compile_error(doc@) == Some((e.schema_path@, e.kind@, e.instance_path@)),
        },
{
    let value = value_of_tree(doc);
    jsonschema::JSONSchema::options().with_draft(jsonschema::Draft::Draft7).compile(&value).map_err(
        |e| CompileError {
            schema_path: e.schema_path.to_string(),
            kind: format!("{:?}", e.kind),
            instance_path: e.instance_path.to_string(),
        },
    )
}

#[verifier::external_type_specification]
#[verifier::external_body]
pub struct ExValidationErrorKind(ValidationErrorKind);

/// Carries the kind of a jsonschema error over, telling apart the two kinds
/// that the report names.
#[verifier::external_body]
fn kind_of(kind: ValidationErrorKind) -> ViolationKind {
    match kind {
        ValidationErrorKind::AdditionalProperties { unexpected } => {
            ViolationKind::AdditionalProperties { unexpected }
        },
        ValidationErrorKind::UniqueItems => ViolationKind::UniqueItems,
        _ => ViolationKind::Other,
    }
}

/// The violations that jsonschema finds in the document `instance` against
/// the draft 7 schema compiled from the document `schema_doc`, in its order.
pub uninterp spec fn draft7_violations(schema_doc: TreeView, instance: TreeView) -> Seq<Violation>;

/// Relies on `jsonschema::JSONSchema::validate`: the errors it yields walk the
/// instance and the compiled schema alone, so they depend on the document the
/// schema was compiled from and on the instance. Each is carried over into a
/// violation, in the order yielded.
#[verifier::external_body]
pub(crate) fn violations(schema: &Schema, doc: &Tree) -> (r: Vec<Violation>)
    ensures
        r@ == draft7_violations(schema.document(), doc@),
{
    let instance = value_of_tree(doc);
    let found = match schema.compiled.validate(&instance) {
        Ok(()) => Vec::new(),
        Err(errors) => errors.map(|e| Violation {
            kind: kind_of(e.kind),
            instance_path: e.instance_path.to_string(),
            instance: e.instance.to_string(),
        }).collect(),
    };
    found
}

} // verus!
