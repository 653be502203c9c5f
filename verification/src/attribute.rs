use vstd::prelude::*;
use vstd::string::StringExecFns;

verus! {

/// Spec-level identity of an attribute: the character sequences of its axis
/// name and of its own name.
#[verifier::ext_equal]
pub struct AttrV {
    pub axis: Seq<char>,
    pub name: Seq<char>,
}

/// An attribute is a named value inside a named classification axis.
///
/// It is a pure identity value `(axis, name)`; slots and hints live in the
/// [`crate::Policy`] registry.
#[derive(Clone, Debug)]
pub struct Attribute {
    /// Name of the axis the attribute belongs to.
    pub axis: String,
    /// Name of the attribute inside its axis.
    pub name: String,
}

impl View for Attribute {
    type V = AttrV;

    open spec fn view(&self) -> AttrV {
        AttrV { axis: self.axis@, name: self.name@ }
    }
}

/// Textual form of an attribute: `axis::name`.
pub open spec fn attr_text(a: AttrV) -> Seq<char> {
    a.axis + "::"@ + a.name
}

impl Attribute {
    /// Builds the attribute identified by `name` inside the axis `axis`.
    pub fn new(axis: &str, name: &str) -> (r: Self)
        ensures
            r@.axis == axis@,
            r@.name == name@,
    {
        Attribute { axis: axis.to_owned(), name: name.to_owned() }
    }

    /// Textual form `axis::name` of the attribute.
    pub fn to_text(&self) -> (r: String)
        ensures
            r@ == attr_text(self@),
    {
        let mut s = self.axis.clone();
        s.append("::");
        s.append(self.name.as_str());
        s
    }
}

impl PartialEq for Attribute {
    fn eq(&self, other: &Self) -> bool {
        self.axis == other.axis && self.name == other.name
    }
}

impl vstd::std_specs::cmp::PartialEqSpecImpl for Attribute {
    open spec fn obeys_eq_spec() -> bool {
        true
    }

    open spec fn eq_spec(&self, other: &Self) -> bool {
        self@ == other@
    }
}

} // verus!
