//! Policy engine for attribute-based encryption.
//!
//! A [`Policy`] is a registry of classification axes. Each axis partitions a
//! dimension (for example "Department") into named attributes, and every
//! attribute is assigned a monotonically increasing integer slot. Rotating an
//! attribute allocates a fresh slot while keeping the full slot history, so
//! that previously issued credentials stay valid.
//!
//! An [`AccessPolicy`] is a monotone boolean expression over attributes. It
//! can be built with combinators, from a per-axis attribute map, or parsed
//! from a textual form such as `Department::MKG && Country::France`, and it
//! resolves against a [`Policy`] into the list of conjunctive attribute
//! tuples that the cryptographic layer consumes.

mod access_policy;
mod attribute;
mod codec;
mod error;
mod expression;
mod json;
mod policy;
mod text;

pub use access_policy::AccessPolicy;
pub use attribute::Attribute;
pub use error::Error;
pub use policy::{
    AxisAttributePorperties, EncryptionHint, LegacyPolicy, Policy, PolicyAttributesParameters,
    PolicyAxesParameters, PolicyAxis, PolicyVersion,
};
