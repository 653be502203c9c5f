use vstd::prelude::*;
use vstd::string::StringExecFns;

verus! {

/// Error taxonomy of the policy engine. Every fallible operation returns one
/// of these; all are local and terminal, none is retried internally.
#[derive(Clone, Debug)]
pub enum Error {
    /// Query or rotation on an attribute the registry does not know.
    AttributeNotFound(String),
    /// An axis with no attributes was handed to `AccessPolicy::from_axes`.
    MissingAttribute { item: Option<String>, axis_name: Option<String> },
    /// An empty axis map was handed to `AccessPolicy::from_axes`.
    MissingAxis,
    /// The expression parser saw a connective other than `&&` or `||`.
    UnsupportedOperator(String),
    /// An addition or rotation would exceed the registry's ceiling.
    CapacityOverflow,
    /// Duplicate axis name, or duplicate attribute within a new axis.
    ExistingPolicy(String),
    /// A textual boolean expression violates the grammar.
    InvalidBooleanExpression(String),
    /// Registry-consistency violation: an attribute with an empty history.
    InvalidAttribute(String),
    /// Combination enumeration referenced an axis absent from the registry.
    InvalidAxis(String),
    /// Neither the current nor the legacy schema could decode a policy blob.
    DeserializationError(String),
}

impl Error {
    /// Human-readable diagnostic text of the error.
    pub fn message(&self) -> String {
        match self {
            Error::AttributeNotFound(s) => {
                let mut m = "attribute not found: ".to_owned();
                m.append(s.as_str());
                m
            },
            Error::MissingAttribute { item, axis_name } => {
                let mut m: String = match item {
                    Some(i) => i.clone(),
                    None => "attribute".to_owned(),
                };
                m.append(" is missing");
                match axis_name {
                    Some(a) => {
                        m.append(" in axis ");
                        m.append(a.as_str());
                    },
                    None => {},
                }
                m
            },
            Error::MissingAxis => "no axis given".to_owned(),
            Error::UnsupportedOperator(s) => {
                let mut m = "unsupported operator ".to_owned();
                m.append(s.as_str());
                m
            },
            Error::CapacityOverflow => "attribute capacity overflow".to_owned(),
            Error::ExistingPolicy(s) => {
                let mut m = "policy ".to_owned();
                m.append(s.as_str());
                m.append(" already exists");
                m
            },
            Error::InvalidBooleanExpression(s) => {
                let mut m = "invalid boolean expression: ".to_owned();
                m.append(s.as_str());
                m
            },
            Error::InvalidAttribute(s) => {
                let mut m = "invalid attribute: ".to_owned();
                m.append(s.as_str());
                m
            },
            Error::InvalidAxis(s) => {
                let mut m = "invalid axis: ".to_owned();
                m.append(s.as_str());
                m
            },
            Error::DeserializationError(s) => {
                let mut m = "deserialization error: ".to_owned();
                m.append(s.as_str());
                m
            },
        }
    }
}

} // verus!
