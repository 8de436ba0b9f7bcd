//! The validator: reads a document, runs it against a compiled schema, and
//! reports the first violation in one of three message shapes.
//!
//! Only the first violation is reported, in the order the validation engine
//! yields them; that order is the engine's and carries no meaning here. Among
//! several unexpected keys of one mapping, likewise, the first one listed wins.

use vstd::prelude::*;
use vstd::string::*;
use crate::external::{draft7_violations, parse_yaml, violations, yaml_tree};
use crate::schema::{schema_view, Schema};
use crate::tree::TreeView;

verus! {

/// What kind of rule a violation broke, as far as the report tells kinds apart.
pub enum ViolationKind {
    /// A closed mapping holds keys that its schema does not declare.
    AdditionalProperties { unexpected: Vec<String> },
    /// An array declared with unique items holds a repeated element.
    UniqueItems,
    /// Any other rule: a type, an enumeration, a pattern, a range, a required key.
    Other,
}

/// One violation of the schema by a document.
pub struct Violation {
    pub kind: ViolationKind,
    /// Where in the document, as a JSON pointer.
    pub instance_path: String,
    /// The offending value, rendered as JSON.
    pub instance: String,
}

/// The report of a document that does not read as YAML.
pub const PARSE_FAILURE: &'static str = "parser failed to parse the file";

/// The report of `v`; `None` for a report of unexpected keys that names none.
pub open spec fn violation_message(v: Violation) -> Option<Seq<char>> {
    match v.kind {
        ViolationKind::AdditionalProperties { unexpected } => {
            if unexpected@.len() > 0 {
                Some("Unexpected keyword "@ + v.instance_path@ + "/"@ + unexpected@[0]@)
            } else {
                None
            }
        },
        ViolationKind::UniqueItems => Some("Duplicate item "@ + v.instance_path@ + "/"@ + v.instance@),
        ViolationKind::Other => Some("Unexpected value "@ + v.instance_path@ + ": "@ + v.instance@),
    }
}

/// The report of the first violation in `vs` that has one.
pub open spec fn first_message(vs: Seq<Violation>) -> Option<Seq<char>>
    decreases vs.len(),
{
    if vs.len() == 0 {
        None
    } else {
        match violation_message(vs[0]) {
            Some(m) => Some(m),
            None => first_message(vs.drop_first()),
        }
    }
}

/// `r` is the outcome that the violations `vs` call for.
pub open spec fn reports(vs: Seq<Violation>, r: Result<(), String>) -> bool {
    match r {
        Ok(_) => first_message(vs) is None,
        Err(m) => first_message(vs) == Some(m@),
    }
}

impl Violation {
    /// The report of this violation: see `violation_message`.
    pub fn message(&self) -> (r: Option<String>)
        ensures
            match r {
                Some(m) => violation_message(*self) == Some(m@),
                None => violation_message(*self) is None,
            },
    {
        match &self.kind {
            ViolationKind::AdditionalProperties { unexpected } => {
                if unexpected.len() > 0 {
                    let mut m = String::from_str("Unexpected keyword ");
                    m.append(self.instance_path.as_str());
                    m.append("/");
                    m.append(unexpected[0].as_str());
                    Some(m)
                } else {
                    None
                }
            },
            ViolationKind::UniqueItems => {
                let mut m = String::from_str("Duplicate item ");
                m.append(self.instance_path.as_str());
                m.append("/");
                m.append(self.instance.as_str());
                Some(m)
            },
            ViolationKind::Other => {
                let mut m = String::from_str("Unexpected value ");
                m.append(self.instance_path.as_str());
                m.append(": ");
                m.append(self.instance.as_str());
                Some(m)
            },
        }
    }
}

/// Turns the violations of a document into its outcome: success where none
/// has a report, else the report of the first that has one.
pub fn classify(vs: &Vec<Violation>) -> (r: Result<(), String>)
    ensures
        reports(vs@, r),
{
    let mut i: usize = 0;
    assert(vs@.subrange(0, vs@.len() as int) =~= vs@);
    while i < vs.len()
        invariant
            i <= vs@.len(),
            first_message(vs@) == first_message(vs@.subrange(i as int, vs@.len() as int)),
        decreases vs@.len() - i,
    {
        let ghost rest = vs@.subrange(i as int, vs@.len() as int);
        assert(rest[0] == vs@[i as int]);
        assert(rest.drop_first() =~= vs@.subrange(i + 1, vs@.len() as int));
        if let Some(m) = vs[i].message() {
            return Err(m);
        }
        i = i + 1;
    }
    assert(vs@.subrange(i as int, vs@.len() as int).len() == 0);
    Ok(())
}

proof fn lemma_report_is_not_parse_failure(vs: Seq<Violation>)
    ensures
        first_message(vs) matches Some(m) ==> m != PARSE_FAILURE@,
    decreases vs.len(),
{
    reveal_strlit("Unexpected keyword ");
    reveal_strlit("Duplicate item ");
    reveal_strlit("Unexpected value ");
    reveal_strlit("parser failed to parse the file");
    if vs.len() > 0 {
        lemma_report_is_not_parse_failure(vs.drop_first());
        if let Some(m) = violation_message(vs[0]) {
            assert(m[0] != PARSE_FAILURE@[0]);
        }
    }
}

/// Validates the YAML document `yaml` against `schema`. A document that does
/// not read yields `PARSE_FAILURE`, and the schema is not consulted; else the
/// outcome is that of the violations the schema finds.
pub fn validate(schema: &Schema, yaml: &str) -> (r: Result<(), String>)
    ensures
        yaml_tree(yaml@) is None <==> (r matches Err(m) && m@ == PARSE_FAILURE@),
        yaml_tree(yaml@) matches Some(doc) ==> reports(
            draft7_violations(schema.document(), doc@),
            r,
        ),
{
    match parse_yaml(yaml) {
        None => Err(String::from_str(PARSE_FAILURE)),
        Some(doc) => {
            let vs = violations(schema, &doc);
            let r = classify(&vs);
            proof {
                lemma_report_is_not_parse_failure(vs@);
            }
            r
        },
    }
}

/// Two schemas compiled from the built schema document, as every schema that
/// `build_schema` returns is, judge every document alike: the same outcomes
/// meet `validate`'s contract under either.
pub proof fn lemma_builds_judge_alike(first: &Schema, second: &Schema, instance: TreeView)
    requires
        first.document() == schema_view(),
        second.document() == schema_view(),
    ensures
        draft7_violations(first.document(), instance) == draft7_violations(
            second.document(),
            instance,
        ),
        forall|r: Result<(), String>|
            #[trigger] reports(draft7_violations(first.document(), instance), r) == reports(
                draft7_violations(second.document(), instance),
                r,
            ),
{
}

} // verus!
