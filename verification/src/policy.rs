use vstd::prelude::*;
use vstd::string::StringExecFns;

use crate::attribute::{attr_text, AttrV, Attribute};
use crate::error::Error;

verus! {

// ------------------------------------------------------------------
// Association-list helpers.
//
// The registry stores its two maps (axis name -> axis parameters and
// attribute -> attribute parameters) as vectors of pairs kept in insertion
// order: insertion order is load-bearing for hierarchical axes and makes
// serialization deterministic. Lookups use the first matching entry.
// ------------------------------------------------------------------

/// Index of the first entry of `s` whose key equals `k`, if any.
pub open spec fn alist_find_idx<K, V>(s: Seq<(K, V)>, k: K) -> Option<int>
    decreases s.len(),
{
    if s.len() == 0 {
        None
    } else if s[0].0 == k {
        Some(0)
    } else {
        match alist_find_idx(s.subrange(1, s.len() as int), k) {
            Some(i) => Some(i + 1),
            None => None,
        }
    }
}

/// Whether some entry of `s` has key `k`.
pub open spec fn alist_has<K, V>(s: Seq<(K, V)>, k: K) -> bool {
    alist_find_idx(s, k) is Some
}

/// Value of the first entry of `s` whose key equals `k`.
pub open spec fn alist_get<K, V>(s: Seq<(K, V)>, k: K) -> V
    recommends
        alist_has(s, k),
{
    s[alist_find_idx(s, k).unwrap()].1
}

/// `alist_find_idx` returns the position of the first matching entry.
pub proof fn lemma_alist_find_idx_char<K, V>(s: Seq<(K, V)>, k: K)
    ensures
        match alist_find_idx(s, k) {
            Some(i) => 0 <= i < s.len() && s[i].0 == k && (forall|j: int|
                0 <= j < i ==> s[j].0 != k),
            None => forall|j: int| 0 <= j < s.len() ==> s[j].0 != k,
        },
    decreases s.len(),
{
    if s.len() > 0 && s[0].0 != k {
        let t = s.subrange(1, s.len() as int);
        lemma_alist_find_idx_char(t, k);
        assert(forall|j: int| 0 <= j < t.len() ==> #[trigger] t[j] == s[j + 1]);
        match alist_find_idx(t, k) {
            Some(i) => {
                assert(alist_find_idx(s, k) == Some(i + 1));
                assert forall|j: int| 0 <= j < i + 1 implies s[j].0 != k by {
                    if j > 0 {
                        assert(t[j - 1] == s[j]);
                    }
                }
            },
            None => {
                assert forall|j: int| 0 <= j < s.len() implies s[j].0 != k by {
                    if j > 0 {
                        assert(t[j - 1] == s[j]);
                    }
                }
            },
        }
    }
}

/// Conversely, the first matching position is what `alist_find_idx` returns.
pub proof fn lemma_alist_find_idx_of_first<K, V>(s: Seq<(K, V)>, k: K, i: int)
    requires
        0 <= i < s.len(),
        s[i].0 == k,
        forall|j: int| 0 <= j < i ==> s[j].0 != k,
    ensures
        alist_find_idx(s, k) == Some(i),
    decreases s.len(),
{
    if i > 0 {
        lemma_alist_find_idx_of_first(s.subrange(1, s.len() as int), k, i - 1);
    }
}

// ------------------------------------------------------------------
// Value types.
// ------------------------------------------------------------------

/// Hint about which kind of encryption to use for an attribute.
#[derive(Copy, Clone, Debug, PartialEq, Eq, Structural)]
pub enum EncryptionHint {
    /// Hybridized (post-quantum hardened) encryption should be used.
    Hybridized,
    /// Classic encryption should be used.
    Classic,
}

/// Join of two hints: `Hybridized` if either operand is, else `Classic`.
pub open spec fn spec_hint_join(a: EncryptionHint, b: EncryptionHint) -> EncryptionHint {
    if a == EncryptionHint::Hybridized || b == EncryptionHint::Hybridized {
        EncryptionHint::Hybridized
    } else {
        EncryptionHint::Classic
    }
}

impl EncryptionHint {
    /// Weakest mode sufficient for two jointly required attributes.
    pub fn bitor(self, rhs: Self) -> (r: Self)
        ensures
            r == spec_hint_join(self, rhs),
    {
        if self == EncryptionHint::Hybridized || rhs == EncryptionHint::Hybridized {
            EncryptionHint::Hybridized
        } else {
            EncryptionHint::Classic
        }
    }
}

/// Spec-level content of one attribute of an axis definition.
#[verifier::ext_equal]
pub struct AxisAttrPropV {
    pub name: Seq<char>,
    pub encryption_hint: EncryptionHint,
}

/// One attribute of an axis definition: its name and its encryption hint.
#[derive(Clone, Debug)]
pub struct AxisAttributePorperties {
    pub name: String,
    pub encryption_hint: EncryptionHint,
}

impl View for AxisAttributePorperties {
    type V = AxisAttrPropV;

    open spec fn view(&self) -> AxisAttrPropV {
        AxisAttrPropV { name: self.name@, encryption_hint: self.encryption_hint }
    }
}

/// Spec-level content of a [`PolicyAxis`].
#[verifier::ext_equal]
pub struct AxisV {
    pub name: Seq<char>,
    pub attrs: Seq<AxisAttrPropV>,
    pub hierarchical: bool,
}

/// A policy axis: its name and the ordered attribute properties it carries.
///
/// The listed order is load-bearing for hierarchical axes: it defines the
/// rank of each attribute, lowest first. Consumed once by
/// [`Policy::add_axis`].
#[derive(Clone, Debug)]
pub struct PolicyAxis {
    /// Axis name.
    pub name: String,
    /// Names of the axis attributes and their encryption hints.
    pub attributes_properties: Vec<AxisAttributePorperties>,
    /// `true` if the axis is hierarchical.
    pub hierarchical: bool,
}

impl View for PolicyAxis {
    type V = AxisV;

    open spec fn view(&self) -> AxisV {
        AxisV {
            name: self.name@,
            attrs: self.attributes_properties@.map_values(|p: AxisAttributePorperties| p@),
            hierarchical: self.hierarchical,
        }
    }
}

impl PolicyAxis {
    /// Builds a new policy axis with the given name and attribute properties.
    pub fn new(
        name: &str,
        attributes_properties: Vec<(&str, EncryptionHint)>,
        hierarchical: bool,
    ) -> (r: Self)
        ensures
            r@.name == name@,
            r@.attrs == attributes_properties@.map_values(
                |p: (&str, EncryptionHint)| AxisAttrPropV { name: p.0@, encryption_hint: p.1 },
            ),
            r@.hierarchical == hierarchical,
    {
        let mut props: Vec<AxisAttributePorperties> = Vec::new();
        let mut i: usize = 0;
        while i < attributes_properties.len()
            invariant
                0 <= i <= attributes_properties.len(),
                props@.len() == i,
                forall|j: int|
                    0 <= j < i ==> #[trigger] props@[j]@ == (AxisAttrPropV {
                        name: attributes_properties@[j].0@,
                        encryption_hint: attributes_properties@[j].1,
                    }),
            decreases attributes_properties.len() - i,
        {
            let (n, h) = attributes_properties[i];
            props.push(AxisAttributePorperties { name: n.to_owned(), encryption_hint: h });
            i = i + 1;
        }
        let r = PolicyAxis { name: name.to_owned(), attributes_properties: props, hierarchical };
        proof {
            assert(r@.attrs =~= attributes_properties@.map_values(
                |p: (&str, EncryptionHint)| AxisAttrPropV { name: p.0@, encryption_hint: p.1 },
            ));
        }
        r
    }

    /// Number of attributes belonging to this axis.
    pub fn len(&self) -> (r: usize)
        ensures
            r == self@.attrs.len(),
    {
        self.attributes_properties.len()
    }

    /// `true` if the attribute list is empty.
    pub fn is_empty(&self) -> (r: bool)
        ensures
            r == (self@.attrs.len() == 0),
    {
        self.attributes_properties.is_empty()
    }
}

/// Spec-level content of [`PolicyAxesParameters`].
#[verifier::ext_equal]
pub struct AxisParamsV {
    pub attribute_names: Seq<Seq<char>>,
    pub is_hierarchical: bool,
}

/// Stored form of an axis inside a [`Policy`]: the ordered attribute names
/// and the hierarchical flag.
#[derive(Clone, Debug)]
pub struct PolicyAxesParameters {
    pub attribute_names: Vec<String>,
    pub is_hierarchical: bool,
}

impl View for PolicyAxesParameters {
    type V = AxisParamsV;

    open spec fn view(&self) -> AxisParamsV {
        AxisParamsV {
            attribute_names: self.attribute_names@.map_values(|s: String| s@),
            is_hierarchical: self.is_hierarchical,
        }
    }
}

/// Spec-level content of [`PolicyAttributesParameters`].
#[verifier::ext_equal]
pub struct AttrParamsV {
    pub values: Seq<u32>,
    pub encryption_hint: EncryptionHint,
}

/// Stored form of an attribute inside a [`Policy`]: its slot history in
/// allocation order (oldest first) and its encryption hint.
#[derive(Clone, Debug)]
pub struct PolicyAttributesParameters {
    pub values: Vec<u32>,
    pub encryption_hint: EncryptionHint,
}

impl View for PolicyAttributesParameters {
    type V = AttrParamsV;

    open spec fn view(&self) -> AttrParamsV {
        AttrParamsV { values: self.values@, encryption_hint: self.encryption_hint }
    }
}

/// Schema version tag of a serialized [`Policy`].
#[derive(Copy, Clone, Debug, PartialEq, Eq, Structural)]
pub enum PolicyVersion {
    V1,
}

/// A policy blob in the legacy schema: no schema version and no per-attribute
/// encryption hints. Only produced by the migration path of
/// [`Policy::parse_and_convert`].
#[derive(Clone, Debug)]
pub struct LegacyPolicy {
    /// Last slot value allocated.
    pub last_attribute_value: u32,
    /// Ceiling on the total number of slot allocations.
    pub max_attribute_creations: u32,
    /// Axis name -> stored axis parameters, in insertion order.
    pub axes: Vec<(String, PolicyAxesParameters)>,
    /// Attribute -> slot history, in insertion order.
    pub attributes: Vec<(Attribute, Vec<u32>)>,
}

/// Spec-level content of a [`LegacyPolicy`].
#[verifier::ext_equal]
pub struct LegacyPolicyV {
    pub last: u32,
    pub max: u32,
    pub axes: Seq<(Seq<char>, AxisParamsV)>,
    pub attributes: Seq<(AttrV, Seq<u32>)>,
}

impl View for LegacyPolicy {
    type V = LegacyPolicyV;

    open spec fn view(&self) -> LegacyPolicyV {
        LegacyPolicyV {
            last: self.last_attribute_value,
            max: self.max_attribute_creations,
            axes: self.axes@.map_values(|e: (String, PolicyAxesParameters)| (e.0@, e.1@)),
            attributes: self.attributes@.map_values(|e: (Attribute, Vec<u32>)| (e.0@, e.1@)),
        }
    }
}

/// Spec-level content of a [`Policy`].
#[verifier::ext_equal]
pub struct PolicyV {
    pub version: PolicyVersion,
    pub last: u32,
    pub max: u32,
    pub axes: Seq<(Seq<char>, AxisParamsV)>,
    pub attributes: Seq<(AttrV, AttrParamsV)>,
}

/// The attribute registry: a set of axes, each attribute carrying a slot
/// history. A fixed number of slot allocations (axis additions + rotations)
/// is allowed over the whole lifetime.
#[derive(Clone, Debug)]
pub struct Policy {
    /// Schema version tag.
    pub version: PolicyVersion,
    /// Last slot value allocated; monotone high-water mark.
    pub last_attribute_value: u32,
    /// Ceiling on the total number of slot allocations.
    pub max_attribute_creations: u32,
    /// Axis name -> stored axis parameters, in insertion order.
    pub axes: Vec<(String, PolicyAxesParameters)>,
    /// Attribute -> stored attribute parameters, in insertion order.
    pub attributes: Vec<(Attribute, PolicyAttributesParameters)>,
}

impl View for Policy {
    type V = PolicyV;

    open spec fn view(&self) -> PolicyV {
        PolicyV {
            version: self.version,
            last: self.last_attribute_value,
            max: self.max_attribute_creations,
            axes: self.axes@.map_values(|e: (String, PolicyAxesParameters)| (e.0@, e.1@)),
            attributes: self.attributes@.map_values(
                |e: (Attribute, PolicyAttributesParameters)| (e.0@, e.1@),
            ),
        }
    }
}

// ------------------------------------------------------------------
// Registry invariant.
// ------------------------------------------------------------------

/// Well-formedness of one attribute's stored parameters against the
/// registry's high-water mark: the slot history is non-empty, strictly
/// increasing, and every slot lies in `1 ..= last`.
pub open spec fn attr_params_wf(ap: AttrParamsV, last: u32) -> bool {
    &&& ap.values.len() >= 1
    &&& forall|i: int, j: int| 0 <= i < j < ap.values.len() ==> ap.values[i] < ap.values[j]
    &&& forall|i: int| 0 <= i < ap.values.len() ==> 1 <= #[trigger] ap.values[i] <= last
}

/// No two entries share a key.
pub open spec fn keys_unique<K, V>(s: Seq<(K, V)>) -> bool {
    forall|i: int, j: int| 0 <= i < j < s.len() ==> s[i].0 != s[j].0
}

/// No slot value occurs twice across the whole registry.
pub open spec fn slots_unique(attrs: Seq<(AttrV, AttrParamsV)>) -> bool {
    forall|i: int, j: int, k: int, l: int|
        0 <= i < attrs.len() && 0 <= j < attrs.len() && 0 <= k < attrs[i].1.values.len() && 0 <= l
            < attrs[j].1.values.len() && (i != j || k != l) ==> attrs[i].1.values[k]
            != attrs[j].1.values[l]
}

/// Registry invariant: established by [`Policy::new`] and preserved by
/// [`Policy::add_axis`] and [`Policy::rotate`].
pub open spec fn policy_wf(p: PolicyV) -> bool {
    &&& p.last <= p.max
    &&& keys_unique(p.axes)
    &&& keys_unique(p.attributes)
    &&& forall|i: int| 0 <= i < p.attributes.len() ==> attr_params_wf(#[trigger] p.attributes[i].1, p.last)
    &&& slots_unique(p.attributes)
}

/// Number of slot allocations still allowed.
pub open spec fn spec_remaining(p: PolicyV) -> int {
    if p.last <= p.max {
        p.max - p.last
    } else {
        0
    }
}

// ------------------------------------------------------------------
// Registry transitions, at the spec level. The executable operations are
// proved to implement exactly these outcomes.
// ------------------------------------------------------------------

/// Spec-level tags of the ways a registry transition can fail.
#[derive(Debug)]
pub enum RegistryErr {
    ExistingAxis,
    Capacity,
    ExistingAttribute,
    UnknownAttribute,
}

/// Identity of the `i`-th attribute of the axis `a`.
pub open spec fn axis_attr_key(a: AxisV, i: int) -> AttrV {
    AttrV { axis: a.name, name: a.attrs[i].name }
}

/// Whether the `i`-th attribute of `a` collides with the registry `p` or
/// with an earlier attribute of `a` itself.
pub open spec fn axis_dup_at(p: PolicyV, a: AxisV, i: int) -> bool {
    alist_has(p.attributes, axis_attr_key(a, i)) || exists|j: int|
        0 <= j < i && a.attrs[j].name == a.attrs[i].name
}

/// First index at or after `i` where `a` collides, if any.
pub open spec fn first_dup_from(p: PolicyV, a: AxisV, i: int) -> Option<int>
    decreases a.attrs.len() - i,
{
    if i < 0 || i >= a.attrs.len() {
        None
    } else if axis_dup_at(p, a, i) {
        Some(i)
    } else {
        first_dup_from(p, a, i + 1)
    }
}

/// First colliding attribute index of `a` against `p`, if any.
pub open spec fn axis_first_dup(p: PolicyV, a: AxisV) -> Option<int> {
    first_dup_from(p, a, 0)
}

/// A collision at `i` with none before it makes `i` the first collision.
pub proof fn lemma_first_dup_of_first(p: PolicyV, a: AxisV, i: int)
    requires
        0 <= i < a.attrs.len(),
        axis_dup_at(p, a, i),
        forall|j: int| 0 <= j < i ==> !axis_dup_at(p, a, j),
    ensures
        axis_first_dup(p, a) == Some(i),
{
    lemma_first_dup_from_of_first(p, a, 0, i);
}

proof fn lemma_first_dup_from_of_first(p: PolicyV, a: AxisV, lo: int, i: int)
    requires
        0 <= lo <= i < a.attrs.len(),
        axis_dup_at(p, a, i),
        forall|j: int| lo <= j < i ==> !axis_dup_at(p, a, j),
    ensures
        first_dup_from(p, a, lo) == Some(i),
    decreases i - lo,
{
    if lo < i {
        lemma_first_dup_from_of_first(p, a, lo + 1, i);
    }
}

/// With no collision anywhere, there is no first collision.
pub proof fn lemma_first_dup_none(p: PolicyV, a: AxisV)
    requires
        forall|j: int| 0 <= j < a.attrs.len() ==> !axis_dup_at(p, a, j),
    ensures
        axis_first_dup(p, a) is None,
{
    lemma_first_dup_from_none(p, a, 0);
}

proof fn lemma_first_dup_from_none(p: PolicyV, a: AxisV, lo: int)
    requires
        0 <= lo,
        forall|j: int| lo <= j < a.attrs.len() ==> !axis_dup_at(p, a, j),
    ensures
        first_dup_from(p, a, lo) is None,
    decreases a.attrs.len() - lo,
{
    if lo < a.attrs.len() {
        lemma_first_dup_from_none(p, a, lo + 1);
    }
}

/// The attribute entries that adding the axis `a` appends to `p`: each
/// listed attribute with a singleton history holding its fresh slot.
pub open spec fn add_axis_new_entries(p: PolicyV, a: AxisV) -> Seq<(AttrV, AttrParamsV)> {
    Seq::new(
        a.attrs.len(),
        |i: int|
            (axis_attr_key(a, i), AttrParamsV {
                values: seq![(p.last + i + 1) as u32],
                encryption_hint: a.attrs[i].encryption_hint,
            }),
    )
}

/// Registry state after successfully adding the axis `a`.
pub open spec fn add_axis_post(p: PolicyV, a: AxisV) -> PolicyV {
    PolicyV {
        version: p.version,
        last: (p.last + a.attrs.len()) as u32,
        max: p.max,
        axes: p.axes.push(
            (a.name, AxisParamsV {
                attribute_names: a.attrs.map_values(|x: AxisAttrPropV| x.name),
                is_hierarchical: a.hierarchical,
            }),
        ),
        attributes: p.attributes + add_axis_new_entries(p, a),
    }
}

/// Outcome of `add_axis`: duplicate axis names are rejected first, then
/// insufficient capacity, then colliding attributes.
pub open spec fn add_axis_outcome(p: PolicyV, a: AxisV) -> Result<PolicyV, RegistryErr> {
    if alist_has(p.axes, a.name) {
        Err(RegistryErr::ExistingAxis)
    } else if a.attrs.len() > spec_remaining(p) {
        Err(RegistryErr::Capacity)
    } else if axis_first_dup(p, a) is Some {
        Err(RegistryErr::ExistingAttribute)
    } else {
        Ok(add_axis_post(p, a))
    }
}

/// Registry state after successfully rotating the attribute `a`.
pub open spec fn rotate_post(p: PolicyV, a: AttrV) -> PolicyV {
    let i = alist_find_idx(p.attributes, a).unwrap();
    let entry = p.attributes[i];
    PolicyV {
        version: p.version,
        last: (p.last + 1) as u32,
        max: p.max,
        axes: p.axes,
        attributes: p.attributes.update(
            i,
            (entry.0, AttrParamsV {
                values: entry.1.values.push((p.last + 1) as u32),
                encryption_hint: entry.1.encryption_hint,
            }),
        ),
    }
}

/// Outcome of `rotate`: the ceiling is checked before the attribute lookup.
pub open spec fn rotate_outcome(p: PolicyV, a: AttrV) -> Result<PolicyV, RegistryErr> {
    if p.last >= p.max {
        Err(RegistryErr::Capacity)
    } else if !alist_has(p.attributes, a) {
        Err(RegistryErr::UnknownAttribute)
    } else {
        Ok(rotate_post(p, a))
    }
}

/// Whether position `i` of the query list `l` cannot be answered: unknown
/// attribute or empty history.
pub open spec fn bad_attr_at(p: PolicyV, l: Seq<AttrV>, i: int) -> bool {
    !alist_has(p.attributes, l[i]) || alist_get(p.attributes, l[i]).values.len() == 0
}

pub open spec fn first_bad_attr_from(p: PolicyV, l: Seq<AttrV>, i: int) -> Option<int>
    decreases l.len() - i,
{
    if i < 0 || i >= l.len() {
        None
    } else if bad_attr_at(p, l, i) {
        Some(i)
    } else {
        first_bad_attr_from(p, l, i + 1)
    }
}

/// First position of `l` that cannot be answered, if any.
pub open spec fn first_bad_attr(p: PolicyV, l: Seq<AttrV>) -> Option<int> {
    first_bad_attr_from(p, l, 0)
}

proof fn lemma_first_bad_attr_of_first(p: PolicyV, l: Seq<AttrV>, i: int)
    requires
        0 <= i < l.len(),
        bad_attr_at(p, l, i),
        forall|j: int| 0 <= j < i ==> !bad_attr_at(p, l, j),
    ensures
        first_bad_attr(p, l) == Some(i),
{
    lemma_first_bad_attr_from_of_first(p, l, 0, i);
}

proof fn lemma_first_bad_attr_from_of_first(p: PolicyV, l: Seq<AttrV>, lo: int, i: int)
    requires
        0 <= lo <= i < l.len(),
        bad_attr_at(p, l, i),
        forall|j: int| lo <= j < i ==> !bad_attr_at(p, l, j),
    ensures
        first_bad_attr_from(p, l, lo) == Some(i),
    decreases i - lo,
{
    if lo < i {
        lemma_first_bad_attr_from_of_first(p, l, lo + 1, i);
    }
}

proof fn lemma_first_bad_attr_none(p: PolicyV, l: Seq<AttrV>)
    requires
        forall|j: int| 0 <= j < l.len() ==> !bad_attr_at(p, l, j),
    ensures
        first_bad_attr(p, l) is None,
{
    lemma_first_bad_attr_from_none(p, l, 0);
}

proof fn lemma_first_bad_attr_from_none(p: PolicyV, l: Seq<AttrV>, lo: int)
    requires
        forall|j: int| lo <= j < l.len() ==> !bad_attr_at(p, l, j),
        0 <= lo,
    ensures
        first_bad_attr_from(p, l, lo) is None,
    decreases l.len() - lo,
{
    if lo < l.len() {
        lemma_first_bad_attr_from_none(p, l, lo + 1);
    }
}

/// Copies a slot-history vector.
pub(crate) fn clone_u32_vec(v: &Vec<u32>) -> (r: Vec<u32>)
    ensures
        r@ == v@,
{
    let mut out: Vec<u32> = Vec::new();
    let mut i: usize = 0;
    while i < v.len()
        invariant
            0 <= i <= v.len(),
            out@ =~= v@.subrange(0, i as int),
        decreases v.len() - i,
    {
        out.push(v[i]);
        i = i + 1;
    }
    proof {
        assert(v@.subrange(0, v@.len() as int) =~= v@);
    }
    out
}

impl Policy {
    /// Builds an empty registry allowing `nb_creations` slot allocations
    /// (axis attribute additions + rotations) in total.
    pub fn new(nb_creations: u32) -> (r: Self)
        ensures
            r@.version == PolicyVersion::V1,
            r@.last == 0,
            r@.max == nb_creations,
            r@.axes =~= Seq::<(Seq<char>, AxisParamsV)>::empty(),
            r@.attributes =~= Seq::<(AttrV, AttrParamsV)>::empty(),
            policy_wf(r@),
    {
        Policy {
            version: PolicyVersion::V1,
            last_attribute_value: 0,
            max_attribute_creations: nb_creations,
            axes: Vec::new(),
            attributes: Vec::new(),
        }
    }

    /// Remaining number of allowed slot allocations.
    pub fn remaining_attribute_creations(&self) -> (r: u32)
        ensures
            r == spec_remaining(self@),
    {
        if self.last_attribute_value <= self.max_attribute_creations {
            self.max_attribute_creations - self.last_attribute_value
        } else {
            0
        }
    }

    /// Looks an axis up by name; returns its stored parameters.
    pub fn find_axis(&self, name: &str) -> (r: Option<&PolicyAxesParameters>)
        ensures
            match r {
                Some(params) => alist_has(self@.axes, name@) && params@ == alist_get(
                    self@.axes,
                    name@,
                ),
                None => !alist_has(self@.axes, name@),
            },
    {
        let ghost axes = self@.axes;
        let mut i: usize = 0;
        while i < self.axes.len()
            invariant
                0 <= i <= self.axes.len(),
                axes == self@.axes,
                axes.len() == self.axes.len(),
                forall|j: int| 0 <= j < i ==> axes[j].0 != name@,
                forall|j: int|
                    0 <= j < self.axes.len() ==> axes[j] == (self.axes@[j].0@, self.axes@[j].1@),
            decreases self.axes.len() - i,
        {
            if crate::text::str_eq(self.axes[i].0.as_str(), name) {
                proof {
                    lemma_alist_find_idx_of_first(axes, name@, i as int);
                }
                return Some(&self.axes[i].1);
            }
            i = i + 1;
        }
        proof {
            lemma_alist_find_idx_char(axes, name@);
        }
        None
    }

    /// Index of the entry of `self.attributes` holding `attr`, if any.
    fn find_attribute_idx(&self, attr: &Attribute) -> (r: Option<usize>)
        ensures
            match r {
                Some(i) => alist_find_idx(self@.attributes, attr@) == Some(i as int),
                None => !alist_has(self@.attributes, attr@),
            },
    {
        let ghost attrs = self@.attributes;
        let mut i: usize = 0;
        while i < self.attributes.len()
            invariant
                0 <= i <= self.attributes.len(),
                attrs == self@.attributes,
                attrs.len() == self.attributes.len(),
                forall|j: int| 0 <= j < i ==> attrs[j].0 != attr@,
                forall|j: int|
                    0 <= j < self.attributes.len() ==> attrs[j] == (
                        self.attributes@[j].0@,
                        self.attributes@[j].1@,
                    ),
            decreases self.attributes.len() - i,
        {
            if self.attributes[i].0.eq(attr) {
                proof {
                    lemma_alist_find_idx_of_first(attrs, attr@, i as int);
                }
                return Some(i);
            }
            i = i + 1;
        }
        proof {
            lemma_alist_find_idx_char(attrs, attr@);
        }
        None
    }

    /// All attributes known to the registry, in insertion order.
    pub fn attributes(&self) -> (r: Vec<Attribute>)
        ensures
            r@.map_values(|a: Attribute| a@) =~= self@.attributes.map_values(
                |e: (AttrV, AttrParamsV)| e.0,
            ),
    {
        let mut out: Vec<Attribute> = Vec::new();
        let mut i: usize = 0;
        while i < self.attributes.len()
            invariant
                0 <= i <= self.attributes.len(),
                out@.len() == i,
                forall|j: int| 0 <= j < i ==> #[trigger] out@[j]@ == self@.attributes[j].0,
            decreases self.attributes.len() - i,
        {
            let a = &self.attributes[i].0;
            out.push(Attribute::new(a.axis.as_str(), a.name.as_str()));
            i = i + 1;
        }
        proof {
            assert(out@.map_values(|a: Attribute| a@) =~= self@.attributes.map_values(
                |e: (AttrV, AttrParamsV)| e.0,
            ));
        }
        out
    }

    /// Full slot history of `attribute`, most recent first.
    pub fn attribute_values(&self, attribute: &Attribute) -> (r: Result<Vec<u32>, Error>)
        ensures
            match r {
                Ok(values) => alist_has(self@.attributes, attribute@) && values@ =~= alist_get(
                    self@.attributes,
                    attribute@,
                ).values.reverse(),
                Err(e) => !alist_has(self@.attributes, attribute@) && e is AttributeNotFound,
            },
    {
        match self.find_attribute_idx(attribute) {
            Some(i) => {
                proof {
                    lemma_alist_find_idx_char(self@.attributes, attribute@);
                }
                let values = &self.attributes[i].1.values;
                let mut out: Vec<u32> = Vec::new();
                let mut j: usize = values.len();
                while j > 0
                    invariant
                        0 <= j <= values.len(),
                        out@ =~= values@.subrange(j as int, values@.len() as int).reverse(),
                    decreases j,
                {
                    j = j - 1;
                    out.push(values[j]);
                    proof {
                        assert(out@ =~= values@.subrange(j as int, values@.len() as int).reverse());
                    }
                }
                proof {
                    assert(values@.subrange(0, values@.len() as int) =~= values@);
                }
                Ok(out)
            },
            None => Err(Error::AttributeNotFound(attribute.to_text())),
        }
    }

    /// Encryption hint of `attribute`.
    pub fn attribute_hybridization_hint(&self, attribute: &Attribute) -> (r: Result<
        EncryptionHint,
        Error,
    >)
        ensures
            match r {
                Ok(h) => alist_has(self@.attributes, attribute@) && h == alist_get(
                    self@.attributes,
                    attribute@,
                ).encryption_hint,
                Err(e) => !alist_has(self@.attributes, attribute@) && e is AttributeNotFound,
            },
    {
        match self.find_attribute_idx(attribute) {
            Some(i) => {
                proof {
                    lemma_alist_find_idx_char(self@.attributes, attribute@);
                }
                Ok(self.attributes[i].1.encryption_hint)
            },
            None => Err(Error::AttributeNotFound(attribute.to_text())),
        }
    }

    /// Adds `axis` to the registry, assigning one fresh slot to each of its
    /// attributes in listed order.
    ///
    /// Fails with `ExistingPolicy` if the axis name is already registered
    /// (regardless of the new axis's contents), with `CapacityOverflow` if
    /// the axis holds more attributes than slots remain, and with
    /// `ExistingPolicy` if an attribute of the axis is already registered or
    /// listed twice. On failure the registry is unchanged.
    pub fn add_axis(&mut self, axis: PolicyAxis) -> (r: Result<(), Error>)
        ensures
            match add_axis_outcome(old(self)@, axis@) {
                Ok(q) => r is Ok && final(self)@ == q,
                Err(tag) => {
                    &&& *final(self) == *old(self)
                    &&& match tag {
                        RegistryErr::ExistingAxis => match r {
                            Err(Error::ExistingPolicy(s)) => s@ == axis@.name,
                            _ => false,
                        },
                        RegistryErr::Capacity => r matches Err(Error::CapacityOverflow),
                        RegistryErr::ExistingAttribute => match r {
                            Err(Error::ExistingPolicy(s)) => s@ == attr_text(
                                axis_attr_key(axis@, axis_first_dup(old(self)@, axis@).unwrap()),
                            ),
                            _ => false,
                        },
                        RegistryErr::UnknownAttribute => false,
                    }
                },
            },
    {
        let ghost p0 = self@;
        let ghost a = axis@;
        if self.find_axis(axis.name.as_str()).is_some() {
            return Err(Error::ExistingPolicy(axis.name.clone()));
        }
        let remaining = self.remaining_attribute_creations();
        if axis.attributes_properties.len() > remaining as usize {
            return Err(Error::CapacityOverflow);
        }
        // Validation pass: reject the axis before any mutation, so that a
        // failing call leaves no partial state behind.
        let mut i: usize = 0;
        while i < axis.attributes_properties.len()
            invariant
                0 <= i <= axis.attributes_properties.len(),
                *self == *old(self),
                self@ == p0,
                axis@ == a,
                a.attrs.len() == axis.attributes_properties.len(),
                a.attrs.len() <= spec_remaining(p0),
                !alist_has(p0.axes, a.name),
                forall|j: int| 0 <= j < i ==> !axis_dup_at(p0, a, j),
            decreases axis.attributes_properties.len() - i,
        {
            let attribute = Attribute::new(
                axis.name.as_str(),
                axis.attributes_properties[i].name.as_str(),
            );
            proof {
                assert(a.attrs[i as int] == axis.attributes_properties@[i as int]@);
                assert(attribute@ == axis_attr_key(a, i as int));
            }
            if self.find_attribute_idx(&attribute).is_some() {
                proof {
                    assert(axis_dup_at(p0, a, i as int));
                    lemma_first_dup_of_first(p0, a, i as int);
                }
                return Err(Error::ExistingPolicy(attribute.to_text()));
            }
            let mut j: usize = 0;
            while j < i
                invariant
                    0 <= j <= i < axis.attributes_properties.len(),
                    axis@ == a,
                    *self == *old(self),
                    self@ == p0,
                    a.attrs.len() <= spec_remaining(p0),
                    !alist_has(p0.axes, a.name),
                    attribute@ == axis_attr_key(a, i as int),
                    !alist_has(p0.attributes, axis_attr_key(a, i as int)),
                    forall|l: int| 0 <= l < i ==> !axis_dup_at(p0, a, l),
                    a.attrs.len() == axis.attributes_properties.len(),
                    forall|l: int| 0 <= l < j ==> a.attrs[l].name != a.attrs[i as int].name,
                decreases i - j,
            {
                if crate::text::str_eq(
                    axis.attributes_properties[j].name.as_str(),
                    axis.attributes_properties[i].name.as_str(),
                ) {
                    proof {
                        assert(a.attrs[j as int] == axis.attributes_properties@[j as int]@);
                        assert(a.attrs[j as int].name == a.attrs[i as int].name);
                        assert(axis_dup_at(p0, a, i as int));
                        lemma_first_dup_of_first(p0, a, i as int);
                    }
                    return Err(Error::ExistingPolicy(attribute.to_text()));
                }
                j = j + 1;
            }
            proof {
                assert(!axis_dup_at(p0, a, i as int));
            }
            i = i + 1;
        }
        proof {
            lemma_first_dup_none(p0, a);
            assert(add_axis_outcome(p0, a) == Ok::<PolicyV, RegistryErr>(add_axis_post(p0, a)));
        }
        // Mutation pass: allocate one fresh slot per attribute, in order.
        let mut axis_names: Vec<String> = Vec::new();
        let mut i: usize = 0;
        while i < axis.attributes_properties.len()
            invariant
                0 <= i <= axis.attributes_properties.len(),
                axis@ == a,
                a.attrs.len() == axis.attributes_properties.len(),
                a.attrs.len() <= spec_remaining(p0),
                self@.version == p0.version,
                self@.max == p0.max,
                self@.axes == p0.axes,
                self@.last == p0.last + i,
                self@.attributes =~= p0.attributes + add_axis_new_entries(p0, a).take(i as int),
                axis_names@.len() == i,
                forall|j: int| 0 <= j < i ==> #[trigger] axis_names@[j]@ == a.attrs[j].name,
            decreases axis.attributes_properties.len() - i,
        {
            proof {
                assert(spec_remaining(p0) > i);
                assert(p0.last + i + 1 <= p0.max);
            }
            let ghost prev = self@.attributes;
            let prop = &axis.attributes_properties[i];
            self.last_attribute_value = self.last_attribute_value + 1;
            axis_names.push(prop.name.clone());
            let attribute = Attribute::new(axis.name.as_str(), prop.name.as_str());
            let mut vals: Vec<u32> = Vec::new();
            vals.push(self.last_attribute_value);
            self.attributes.push(
                (attribute, PolicyAttributesParameters {
                    values: vals,
                    encryption_hint: prop.encryption_hint,
                }),
            );
            proof {
                assert(a.attrs[i as int] == axis.attributes_properties@[i as int]@);
                assert(vals@ =~= seq![(p0.last + i + 1) as u32]);
                assert(attribute@ == axis_attr_key(a, i as int));
                assert(self@.attributes =~= prev.push(add_axis_new_entries(p0, a)[i as int]));
                assert((p0.attributes + add_axis_new_entries(p0, a).take(i as int)).push(
                    add_axis_new_entries(p0, a)[i as int],
                ) =~= p0.attributes + add_axis_new_entries(p0, a).take(i + 1));
                assert(self@.attributes =~= p0.attributes + add_axis_new_entries(p0, a).take(
                    i + 1,
                ));
            }
            i = i + 1;
        }
        self.axes.push(
            (axis.name, PolicyAxesParameters {
                attribute_names: axis_names,
                is_hierarchical: axis.hierarchical,
            }),
        );
        proof {
            assert(add_axis_new_entries(p0, a).take(a.attrs.len() as int) =~= add_axis_new_entries(
                p0,
                a,
            ));
            assert(self@.attributes =~= add_axis_post(p0, a).attributes);
            assert(axis_names@.map_values(|s: String| s@) =~= a.attrs.map_values(
                |x: AxisAttrPropV| x.name,
            ));
            assert(self@.axes =~= add_axis_post(p0, a).axes);
            assert(self@ == add_axis_post(p0, a));
        }
        Ok(())
    }

    /// Rotates `attr`: allocates a fresh slot for it and appends it to the
    /// attribute's history, keeping all prior slots.
    ///
    /// Fails with `CapacityOverflow` when the registry is at its ceiling and
    /// with `AttributeNotFound` on an unregistered attribute; the registry is
    /// then unchanged.
    pub fn rotate(&mut self, attr: &Attribute) -> (r: Result<(), Error>)
        ensures
            match rotate_outcome(old(self)@, attr@) {
                Ok(q) => r is Ok && final(self)@ == q,
                Err(tag) => {
                    &&& *final(self) == *old(self)
                    &&& match tag {
                        RegistryErr::Capacity => r matches Err(Error::CapacityOverflow),
                        RegistryErr::UnknownAttribute => match r {
                            Err(Error::AttributeNotFound(s)) => s@ == attr_text(attr@),
                            _ => false,
                        },
                        _ => false,
                    }
                },
            },
    {
        let ghost p0 = self@;
        if self.last_attribute_value >= self.max_attribute_creations {
            return Err(Error::CapacityOverflow);
        }
        match self.find_attribute_idx(attr) {
            Some(i) => {
                proof {
                    lemma_alist_find_idx_char(p0.attributes, attr@);
                }
                let mut vals = clone_u32_vec(&self.attributes[i].1.values);
                let hint = self.attributes[i].1.encryption_hint;
                let entry_attr = Attribute::new(
                    self.attributes[i].0.axis.as_str(),
                    self.attributes[i].0.name.as_str(),
                );
                self.last_attribute_value = self.last_attribute_value + 1;
                vals.push(self.last_attribute_value);
                self.attributes.set(
                    i,
                    (entry_attr, PolicyAttributesParameters {
                        values: vals,
                        encryption_hint: hint,
                    }),
                );
                proof {
                    assert(self@.attributes =~= rotate_post(p0, attr@).attributes);
                    assert(self@ == rotate_post(p0, attr@));
                }
                Ok(())
            },
            None => Err(Error::AttributeNotFound(attr.to_text())),
        }
    }

    /// Current slot of every attribute of `attributes`, in input order.
    ///
    /// Fails at the first entry that is unknown (`AttributeNotFound`) or has
    /// an empty history (`InvalidAttribute`).
    pub fn attributes_values(&self, attributes: &Vec<Attribute>) -> (r: Result<Vec<u32>, Error>)
        ensures
            match r {
                Ok(values) => {
                    &&& first_bad_attr(self@, attributes@.map_values(|x: Attribute| x@))
                        is None
                    &&& values@ =~= Seq::new(
                        attributes@.len() as nat,
                        |i: int| alist_get(self@.attributes, attributes@[i]@).values.last(),
                    )
                },
                Err(e) => {
                    &&& first_bad_attr(self@, attributes@.map_values(|x: Attribute| x@))
                        matches Some(i)
                    &&& {
                        let i = first_bad_attr(
                            self@,
                            attributes@.map_values(|x: Attribute| x@),
                        ).unwrap();
                        if !alist_has(self@.attributes, attributes@[i]@) {
                            e is AttributeNotFound
                        } else {
                            e is InvalidAttribute
                        }
                    }
                },
            },
    {
        let ghost l = attributes@.map_values(|x: Attribute| x@);
        let mut out: Vec<u32> = Vec::new();
        let mut i: usize = 0;
        while i < attributes.len()
            invariant
                0 <= i <= attributes.len(),
                l == attributes@.map_values(|x: Attribute| x@),
                l.len() == attributes@.len(),
                out@.len() == i,
                forall|j: int| 0 <= j < i ==> !bad_attr_at(self@, l, j),
                forall|j: int|
                    0 <= j < i ==> out@[j] == alist_get(self@.attributes, l[j]).values.last(),
            decreases attributes.len() - i,
        {
            match self.attribute_current_value(&attributes[i]) {
                Ok(v) => {
                    out.push(v);
                },
                Err(e) => {
                    proof {
                        lemma_first_bad_attr_of_first(self@, l, i as int);
                    }
                    return Err(e);
                },
            }
            i = i + 1;
        }
        proof {
            lemma_first_bad_attr_none(self@, l);
            assert(out@ =~= Seq::new(
                attributes@.len() as nat,
                |i: int| alist_get(self@.attributes, attributes@[i]@).values.last(),
            ));
        }
        Ok(out)
    }

    /// Current (most recently allocated) slot of `attribute`.
    ///
    /// An attribute with an empty slot history is a registry-consistency
    /// violation and is reported as `InvalidAttribute`.
    pub fn attribute_current_value(&self, attribute: &Attribute) -> (r: Result<u32, Error>)
        ensures
            match r {
                Ok(v) => {
                    &&& alist_has(self@.attributes, attribute@)
                    &&& alist_get(self@.attributes, attribute@).values.len() >= 1
                    &&& v == alist_get(self@.attributes, attribute@).values.last()
                },
                Err(e) => match e {
                    Error::AttributeNotFound(_) => !alist_has(self@.attributes, attribute@),
                    Error::InvalidAttribute(_) => alist_has(self@.attributes, attribute@)
                        && alist_get(self@.attributes, attribute@).values.len() == 0,
                    _ => false,
                },
            },
    {
        match self.find_attribute_idx(attribute) {
            Some(i) => {
                proof {
                    lemma_alist_find_idx_char(self@.attributes, attribute@);
                }
                let values = &self.attributes[i].1.values;
                if values.len() == 0 {
                    Err(Error::InvalidAttribute(attribute.to_text()))
                } else {
                    Ok(values[values.len() - 1])
                }
            },
            None => Err(Error::AttributeNotFound(attribute.to_text())),
        }
    }
}


// ------------------------------------------------------------------
// Laws of the registry.
// ------------------------------------------------------------------

proof fn lemma_first_dup_none_char(p: PolicyV, a: AxisV, lo: int)
    requires
        0 <= lo,
        first_dup_from(p, a, lo) is None,
    ensures
        forall|j: int| lo <= j < a.attrs.len() ==> !axis_dup_at(p, a, j),
    decreases a.attrs.len() - lo,
{
    if lo < a.attrs.len() {
        lemma_first_dup_none_char(p, a, lo + 1);
    }
}

/// Law: adding a fresh, collision-free axis within capacity succeeds,
/// allocates one slot per listed attribute in order, registers each listed
/// attribute with a single-slot history equal to its current value, leaves
/// previously registered attributes untouched, and preserves the registry
/// invariant.
pub proof fn lemma_add_axis_attributes(p: PolicyV, a: AxisV)
    requires
        policy_wf(p),
        add_axis_outcome(p, a) matches Ok(_),
    ensures
        ({
            let q = add_axis_outcome(p, a).unwrap();
            &&& policy_wf(q)
            &&& q.last == p.last + a.attrs.len()
            &&& q.attributes.len() == p.attributes.len() + a.attrs.len()
            &&& forall|i: int| 0 <= i < p.attributes.len() ==> q.attributes[i] == p.attributes[i]
            &&& forall|i: int|
                0 <= i < a.attrs.len() ==> {
                    &&& alist_has(q.attributes, #[trigger] axis_attr_key(a, i))
                    &&& alist_get(q.attributes, axis_attr_key(a, i)).values =~= seq![
                        (p.last + i + 1) as u32,
                    ]
                    &&& alist_get(q.attributes, axis_attr_key(a, i)).values.last() == (p.last + i
                        + 1) as u32
                    &&& alist_get(q.attributes, axis_attr_key(a, i)).encryption_hint
                        == a.attrs[i].encryption_hint
                }
        }),
{
    let q = add_axis_outcome(p, a).unwrap();
    let n = p.attributes.len() as int;
    let m = a.attrs.len() as int;
    lemma_first_dup_none_char(p, a, 0);
    // All new keys are fresh against the old registry and pairwise distinct.
    assert forall|i: int| 0 <= i < m implies !alist_has(
        p.attributes,
        #[trigger] axis_attr_key(a, i),
    ) by {
        assert(!axis_dup_at(p, a, i));
    }
    assert forall|i: int, j: int| 0 <= j < i < m implies axis_attr_key(a, j) != axis_attr_key(
        a,
        i,
    ) by {
        assert(!axis_dup_at(p, a, i));
        assert(a.attrs[j].name != a.attrs[i].name);
    }
    // Each listed attribute is found at its appended position.
    assert forall|i: int| 0 <= i < m implies alist_find_idx(
        q.attributes,
        #[trigger] axis_attr_key(a, i),
    ) == Some(n + i) by {
        lemma_alist_find_idx_char(p.attributes, axis_attr_key(a, i));
        assert forall|j: int| 0 <= j < n + i implies q.attributes[j].0 != axis_attr_key(a, i) by {
            if j < n {
                assert(q.attributes[j] == p.attributes[j]);
            } else {
                assert(q.attributes[j] == add_axis_new_entries(p, a)[j - n]);
            }
        }
        lemma_alist_find_idx_of_first(q.attributes, axis_attr_key(a, i), n + i);
    }
    // Invariant preservation.
    assert(q.last <= q.max);
    assert forall|i: int, j: int| 0 <= i < j < q.axes.len() implies q.axes[i].0 != q.axes[j].0 by {
        if j == q.axes.len() - 1 {
            lemma_alist_find_idx_char(p.axes, a.name);
        }
    }
    assert forall|i: int, j: int| 0 <= i < j < q.attributes.len() implies q.attributes[i].0
        != q.attributes[j].0 by {
        if j >= n {
            if i < n {
                assert(!alist_has(p.attributes, axis_attr_key(a, j - n)));
                lemma_alist_find_idx_char(p.attributes, axis_attr_key(a, j - n));
                assert(q.attributes[i] == p.attributes[i]);
            } else {
                assert(axis_attr_key(a, i - n) != axis_attr_key(a, j - n));
            }
        }
    }
    assert forall|i: int| 0 <= i < q.attributes.len() implies attr_params_wf(
        #[trigger] q.attributes[i].1,
        q.last,
    ) by {
        if i < n {
            assert(attr_params_wf(p.attributes[i].1, p.last));
            assert(q.attributes[i] == p.attributes[i]);
        } else {
            assert(q.attributes[i] == add_axis_new_entries(p, a)[i - n]);
        }
    }
    assert forall|i: int, j: int, k: int, l: int|
        0 <= i < q.attributes.len() && 0 <= j < q.attributes.len() && 0 <= k
            < q.attributes[i].1.values.len() && 0 <= l < q.attributes[j].1.values.len() && (i != j
            || k != l) implies q.attributes[i].1.values[k] != q.attributes[j].1.values[l] by {
        if i < n {
            assert(q.attributes[i] == p.attributes[i]);
            assert(attr_params_wf(p.attributes[i].1, p.last));
        } else {
            assert(q.attributes[i] == add_axis_new_entries(p, a)[i - n]);
        }
        if j < n {
            assert(q.attributes[j] == p.attributes[j]);
            assert(attr_params_wf(p.attributes[j].1, p.last));
        } else {
            assert(q.attributes[j] == add_axis_new_entries(p, a)[j - n]);
        }
    }
}

/// Law (rotation monotonicity): a successful rotation makes the attribute's
/// history exactly one longer, keeps every prior slot at its place, strictly
/// increases the current slot, and preserves the registry invariant.
pub proof fn lemma_rotation_monotonicity(p: PolicyV, a: AttrV)
    requires
        policy_wf(p),
        rotate_outcome(p, a) matches Ok(_),
    ensures
        ({
            let q = rotate_outcome(p, a).unwrap();
            let old_vals = alist_get(p.attributes, a).values;
            let new_vals = alist_get(q.attributes, a).values;
            &&& policy_wf(q)
            &&& q.last == p.last + 1
            &&& new_vals.len() == old_vals.len() + 1
            &&& forall|k: int| 0 <= k < old_vals.len() ==> new_vals[k] == old_vals[k]
            &&& new_vals.last() > old_vals.last()
        }),
{
    let q = rotate_outcome(p, a).unwrap();
    let i = alist_find_idx(p.attributes, a).unwrap();
    lemma_alist_find_idx_char(p.attributes, a);
    assert forall|j: int| 0 <= j < q.attributes.len() implies #[trigger] q.attributes[j].0
        == p.attributes[j].0 by {}
    lemma_alist_find_idx_of_first(q.attributes, a, i);
    assert(attr_params_wf(p.attributes[i].1, p.last));
    // Invariant preservation.
    assert forall|j: int| 0 <= j < q.attributes.len() implies attr_params_wf(
        #[trigger] q.attributes[j].1,
        q.last,
    ) by {
        assert(attr_params_wf(p.attributes[j].1, p.last));
        if j == i {
            let nv = q.attributes[j].1.values;
            let ov = p.attributes[j].1.values;
            assert(forall|k: int| 0 <= k < ov.len() ==> nv[k] == ov[k]);
            assert(nv.last() == p.last + 1);
        }
    }
    assert forall|x: int, y: int, k: int, l: int|
        0 <= x < q.attributes.len() && 0 <= y < q.attributes.len() && 0 <= k
            < q.attributes[x].1.values.len() && 0 <= l < q.attributes[y].1.values.len() && (x != y
            || k != l) implies q.attributes[x].1.values[k] != q.attributes[y].1.values[l] by {
        assert(attr_params_wf(p.attributes[x].1, p.last));
        assert(attr_params_wf(p.attributes[y].1, p.last));
        if x == i && k == q.attributes[x].1.values.len() - 1 {
            assert(q.attributes[x].1.values[k] == p.last + 1);
        } else {
            assert(q.attributes[x].1.values[k] == p.attributes[x].1.values[k]);
        }
        if y == i && l == q.attributes[y].1.values.len() - 1 {
            assert(q.attributes[y].1.values[l] == p.last + 1);
        } else {
            assert(q.attributes[y].1.values[l] == p.attributes[y].1.values[l]);
        }
    }
}

/// Law (capacity): once the ceiling is reached, every further slot-allocating
/// operation fails with a capacity overflow; while enough capacity remains,
/// an otherwise valid operation never does.
pub proof fn lemma_capacity(p: PolicyV, a: AttrV, ax: AxisV)
    requires
        policy_wf(p),
    ensures
        p.last == p.max ==> rotate_outcome(p, a) == Err::<PolicyV, RegistryErr>(
            RegistryErr::Capacity,
        ),
        p.last == p.max && ax.attrs.len() > 0 && !alist_has(p.axes, ax.name)
            ==> add_axis_outcome(p, ax) == Err::<PolicyV, RegistryErr>(RegistryErr::Capacity),
        p.last < p.max && alist_has(p.attributes, a) ==> rotate_outcome(p, a) matches Ok(_),
        !alist_has(p.axes, ax.name) && ax.attrs.len() <= spec_remaining(p) && axis_first_dup(
            p,
            ax,
        ) is None ==> add_axis_outcome(p, ax) matches Ok(_),
{
}

/// Law (idempotence of axis addition): re-adding an axis whose name is
/// already registered always fails with the existing-axis error, whatever
/// the new axis's attribute contents; by the contract of `add_axis` the
/// registry, and in particular its slot counter, is then left unchanged.
pub proof fn lemma_readd_axis_rejected(p: PolicyV, a: AxisV)
    requires
        alist_has(p.axes, a.name),
    ensures
        add_axis_outcome(p, a) == Err::<PolicyV, RegistryErr>(RegistryErr::ExistingAxis),
{
}

} // verus!
