//! The prompts that frame each language-model operation.
use vstd::prelude::*;
use crate::processor::control_unit::instruction::RType;

verus! {

/// The prompt for `op` around `value`, for the operations that a prompt frames.
pub open spec fn spec_micro_prompt(op: RType, value: Seq<char>) -> Option<Seq<char>> {
    match op {
        RType::Morph => Some("Transform it into the following format:\n"@ + value + "\n\nTransformed Output:"@),
        RType::Project => Some("Project how it might evolve based on this direction or trend:\n"@ + value + "\n\nProjected Output:"@),
        RType::Distill => Some("Distill it down following the goal or criteria:\n"@ + value + "\n\nDistilled Result:"@),
        RType::Correlate => Some("Find the correlation with:\n"@ + value + "\n\nRelational Analysis:"@),
        RType::Audit => Some("Does it comply with the evidence:\n"@ + value + "\n\nYES/NO:"@),
        RType::Similarity => None,
    }
}

fn framed(prefix: &str, value: &str, suffix: &str) -> (r: String)
    ensures
        r@ == prefix@ + value@ + suffix@,
{
    let mut s = String::from_str(prefix);
    s.append(value);
    s.append(suffix);
    s
}

/// The prompt for `r_type` around `value`; an error for an operation that no prompt frames.
pub fn create(r_type: &RType, value: &str) -> (r: Result<String, &'static str>)
    ensures
        match spec_micro_prompt(*r_type, value@) {
            Some(p) => r matches Ok(s) && s@ == p,
            None => r == Err::<String, &'static str>("Unsupported r_type for micro prompt generation."),
        },
{
    match r_type {
        // Generative operations.
        RType::Morph => Ok(framed("Transform it into the following format:\n", value, "\n\nTransformed Output:")),
        RType::Project => Ok(framed("Project how it might evolve based on this direction or trend:\n", value, "\n\nProjected Output:")),
        // Cognitive operations.
        RType::Distill => Ok(framed("Distill it down following the goal or criteria:\n", value, "\n\nDistilled Result:")),
        RType::Correlate => Ok(framed("Find the correlation with:\n", value, "\n\nRelational Analysis:")),
        // Guardrails operations.
        RType::Audit => Ok(framed("Does it comply with the evidence:\n", value, "\n\nYES/NO:")),
        _ => Err("Unsupported r_type for micro prompt generation."),
    }
}

/// The answers that count as "yes" for an operation that asks a yes/no question.
pub fn true_values(r_type: &RType) -> (r: Result<Vec<&'static str>, &'static str>)
    ensures
        *r_type == RType::Audit <==> r is Ok,
        r matches Ok(v) ==> v@.len() == 1 && v@[0] == "YES",
        *r_type != RType::Audit ==> r == Err::<Vec<&'static str>, &'static str>("Unsupported r_type for true values."),
{
    match r_type {
        RType::Audit => {
            let mut v: Vec<&'static str> = Vec::new();
            v.push("YES");
            Ok(v)
        },
        _ => Err("Unsupported r_type for true values."),
    }
}

/// The answers that count as "no" for an operation that asks a yes/no question.
pub fn false_values(r_type: &RType) -> (r: Result<Vec<&'static str>, &'static str>)
    ensures
        *r_type == RType::Audit <==> r is Ok,
        r matches Ok(v) ==> v@.len() == 1 && v@[0] == "NO",
        *r_type != RType::Audit ==> r == Err::<Vec<&'static str>, &'static str>("Unsupported r_type for false values."),
{
    match r_type {
        RType::Audit => {
            let mut v: Vec<&'static str> = Vec::new();
            v.push("NO");
            Ok(v)
        },
        _ => Err("Unsupported r_type for false values."),
    }
}

} // verus!
