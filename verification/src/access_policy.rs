use vstd::prelude::*;
use vstd::string::StrSliceExecFns;

use crate::attribute::{AttrV, Attribute};
use crate::error::Error;
use crate::policy::{
    alist_find_idx, alist_get, alist_has, lemma_alist_find_idx_char, lemma_alist_find_idx_of_first,
    AxisParamsV, Policy,
};

verus! {

// ------------------------------------------------------------------
// The expression type.
// ------------------------------------------------------------------

/// Spec-level shape of an access policy expression.
#[verifier::ext_equal]
pub enum ApV {
    Attr(AttrV),
    And(Box<ApV>, Box<ApV>),
    Or(Box<ApV>, Box<ApV>),
    All,
}

/// An access policy is a monotone boolean expression over attributes: only
/// positive literals, connected by `And` and `Or`. `All` matches every
/// attribute and is the neutral element of `And`.
#[derive(Debug)]
pub enum AccessPolicy {
    Attr(Attribute),
    And(Box<AccessPolicy>, Box<AccessPolicy>),
    Or(Box<AccessPolicy>, Box<AccessPolicy>),
    All,
}

/// Spec-level shape of an executable access policy expression.
pub open spec fn ap_view(ap: AccessPolicy) -> ApV
    decreases ap,
{
    match ap {
        AccessPolicy::Attr(a) => ApV::Attr(a@),
        AccessPolicy::And(l, r) => ApV::And(Box::new(ap_view(*l)), Box::new(ap_view(*r))),
        AccessPolicy::Or(l, r) => ApV::Or(Box::new(ap_view(*l)), Box::new(ap_view(*r))),
        AccessPolicy::All => ApV::All,
    }
}

impl View for AccessPolicy {
    type V = ApV;

    open spec fn view(&self) -> ApV {
        ap_view(*self)
    }
}

// ------------------------------------------------------------------
// Attribute collection and canonical sorting.
// ------------------------------------------------------------------

/// The literals of an expression, in left-to-right order.
pub open spec fn attrs_of(ap: ApV) -> Seq<AttrV>
    decreases ap,
{
    match ap {
        ApV::Attr(a) => seq![a],
        ApV::And(l, r) => attrs_of(*l) + attrs_of(*r),
        ApV::Or(l, r) => attrs_of(*l) + attrs_of(*r),
        ApV::All => Seq::empty(),
    }
}

/// Lexicographic order on character sequences, compared from position `i`.
pub open spec fn lex_le_from(a: Seq<char>, b: Seq<char>, i: int) -> bool
    decreases a.len() - i,
{
    if i < 0 || i >= a.len() {
        true
    } else if i >= b.len() {
        false
    } else if a[i] != b[i] {
        (a[i] as u32) < (b[i] as u32)
    } else {
        lex_le_from(a, b, i + 1)
    }
}

/// Lexicographic order on character sequences.
pub open spec fn lex_le(a: Seq<char>, b: Seq<char>) -> bool {
    lex_le_from(a, b, 0)
}

/// Total order on attributes: by axis name, then by attribute name.
pub open spec fn attr_le(a: AttrV, b: AttrV) -> bool {
    if a.axis == b.axis {
        lex_le(a.name, b.name)
    } else {
        lex_le(a.axis, b.axis)
    }
}

/// Inserts `x` into `s` before the first element it precedes.
pub open spec fn insert_sorted(x: AttrV, s: Seq<AttrV>) -> Seq<AttrV>
    decreases s.len(),
{
    if s.len() == 0 {
        seq![x]
    } else if attr_le(x, s[0]) {
        seq![x] + s
    } else {
        seq![s[0]] + insert_sorted(x, s.subrange(1, s.len() as int))
    }
}

/// Canonical insertion sort of an attribute sequence.
pub open spec fn sort_attrs(s: Seq<AttrV>) -> Seq<AttrV>
    decreases s.len(),
{
    if s.len() == 0 {
        Seq::empty()
    } else {
        insert_sorted(s[0], sort_attrs(s.subrange(1, s.len() as int)))
    }
}

/// Lexicographic comparison of two string slices.
fn str_lex_le(a: &str, b: &str) -> (r: bool)
    ensures
        r == lex_le(a@, b@),
{
    let la = a.unicode_len();
    let lb = b.unicode_len();
    let mut i: usize = 0;
    loop
        invariant
            0 <= i,
            la == a@.len(),
            lb == b@.len(),
            lex_le(a@, b@) == lex_le_from(a@, b@, i as int),
        decreases la - i,
    {
        if i >= la {
            return true;
        }
        if i >= lb {
            return false;
        }
        let ca = a.get_char(i);
        let cb = b.get_char(i);
        if ca != cb {
            return (ca as u32) < (cb as u32);
        }
        i = i + 1;
    }
}

/// Order test on attributes, by axis name then attribute name.
fn attr_le_exec(a: &Attribute, b: &Attribute) -> (r: bool)
    ensures
        r == attr_le(a@, b@),
{
    if crate::text::str_eq(a.axis.as_str(), b.axis.as_str()) {
        str_lex_le(a.name.as_str(), b.name.as_str())
    } else {
        str_lex_le(a.axis.as_str(), b.axis.as_str())
    }
}

/// `insert_sorted` splits `s` at the first position whose element `x`
/// precedes.
proof fn lemma_insert_sorted_split(x: AttrV, s: Seq<AttrV>, k: int)
    requires
        0 <= k <= s.len(),
        forall|j: int| 0 <= j < k ==> !attr_le(x, #[trigger] s[j]),
        k < s.len() ==> attr_le(x, s[k]),
    ensures
        insert_sorted(x, s) =~= s.subrange(0, k) + seq![x] + s.subrange(k, s.len() as int),
    decreases s.len(),
{
    if s.len() == 0 {
    } else if attr_le(x, s[0]) {
        assert(k == 0);
    } else {
        let t = s.subrange(1, s.len() as int);
        assert(forall|j: int| 0 <= j < k - 1 ==> #[trigger] t[j] == s[j + 1]);
        lemma_insert_sorted_split(x, t, k - 1);
        assert(insert_sorted(x, s) =~= seq![s[0]] + insert_sorted(x, t));
        assert(t.subrange(0, k - 1) =~= s.subrange(1, k));
        assert(t.subrange(k - 1, t.len() as int) =~= s.subrange(k, s.len() as int));
        assert(seq![s[0]] + (t.subrange(0, k - 1) + seq![x] + t.subrange(k - 1, t.len() as int))
            =~= s.subrange(0, k) + seq![x] + s.subrange(k, s.len() as int));
    }
}

impl AccessPolicy {
    /// Access policy made of the single literal `axis::attribute`.
    pub fn new(axis: &str, attribute: &str) -> (r: Self)
        ensures
            r@ == ApV::Attr(AttrV { axis: axis@, name: attribute@ }),
    {
        AccessPolicy::Attr(Attribute::new(axis, attribute))
    }

    /// Conjunction of `self` and `rhs`.
    pub fn and(self, rhs: Self) -> (r: Self)
        ensures
            r@ == ApV::And(Box::new(self@), Box::new(rhs@)),
    {
        AccessPolicy::And(Box::new(self), Box::new(rhs))
    }

    /// Disjunction of `self` and `rhs`.
    pub fn or(self, rhs: Self) -> (r: Self)
        ensures
            r@ == ApV::Or(Box::new(self@), Box::new(rhs@)),
    {
        AccessPolicy::Or(Box::new(self), Box::new(rhs))
    }

    /// The literals of the expression, in left-to-right order.
    fn attributes_unsorted(&self) -> (r: Vec<Attribute>)
        ensures
            r@.map_values(|a: Attribute| a@) =~= attrs_of(self@),
        decreases self,
    {
        match self {
            AccessPolicy::Attr(a) => {
                let mut v: Vec<Attribute> = Vec::new();
                v.push(Attribute::new(a.axis.as_str(), a.name.as_str()));
                v
            },
            AccessPolicy::And(l, r) | AccessPolicy::Or(l, r) => {
                let mut v = l.attributes_unsorted();
                let mut w = r.attributes_unsorted();
                let ghost gv = v@;
                let ghost gw = w@;
                v.append(&mut w);
                proof {
                    assert(v@ == gv + gw);
                    assert(v@.map_values(|a: Attribute| a@) =~= gv.map_values(|a: Attribute| a@)
                        + gw.map_values(|a: Attribute| a@));
                }
                v
            },
            AccessPolicy::All => Vec::new(),
        }
    }

    /// All literals of this access policy, sorted by axis name then
    /// attribute name. Duplicates are kept; the order is canonical, which
    /// makes the result fit for comparisons.
    pub fn attributes(&self) -> (r: Vec<Attribute>)
        ensures
            r@.map_values(|a: Attribute| a@) =~= sort_attrs(attrs_of(self@)),
    {
        let unsorted = self.attributes_unsorted();
        let ghost s = unsorted@.map_values(|a: Attribute| a@);
        let mut out: Vec<Attribute> = Vec::new();
        let mut i: usize = unsorted.len();
        while i > 0
            invariant
                0 <= i <= unsorted.len(),
                s == unsorted@.map_values(|a: Attribute| a@),
                s.len() == unsorted@.len(),
                out@.map_values(|a: Attribute| a@) =~= sort_attrs(
                    s.subrange(i as int, s.len() as int),
                ),
            decreases i,
        {
            i = i - 1;
            let x = &unsorted[i];
            let ghost prev = out@.map_values(|a: Attribute| a@);
            // find the first position whose element x precedes
            let mut k: usize = 0;
            loop
                invariant
                    0 <= k <= out.len(),
                    prev == out@.map_values(|a: Attribute| a@),
                    prev.len() == out@.len(),
                    forall|j: int| 0 <= j < k ==> !attr_le(x@, #[trigger] prev[j]),
                ensures
                    0 <= k <= prev.len(),
                    prev.len() == out@.len(),
                    forall|j: int| 0 <= j < k ==> !attr_le(x@, #[trigger] prev[j]),
                    k < prev.len() ==> attr_le(x@, prev[k as int]),
                decreases out.len() - k,
            {
                if k >= out.len() {
                    break;
                }
                if attr_le_exec(x, &out[k]) {
                    break;
                }
                k = k + 1;
            }
            proof {
                lemma_insert_sorted_split(x@, prev, k as int);
            }
            out.insert(k, Attribute::new(x.axis.as_str(), x.name.as_str()));
            proof {
                assert(out@.map_values(|a: Attribute| a@) =~= prev.subrange(0, k as int) + seq![x@]
                    + prev.subrange(k as int, prev.len() as int));
                assert(s.subrange(i as int, s.len() as int)[0] == s[i as int]);
                assert(s.subrange(i as int, s.len() as int).subrange(
                    1,
                    s.subrange(i as int, s.len() as int).len() as int,
                ) =~= s.subrange(i + 1, s.len() as int));
                assert(out@.map_values(|a: Attribute| a@) =~= sort_attrs(
                    s.subrange(i as int, s.len() as int),
                ));
            }
        }
        proof {
            assert(s.subrange(0, s.len() as int) =~= s);
        }
        out
    }
}


// ------------------------------------------------------------------
// Structural equality.
// ------------------------------------------------------------------

/// View of a literal numbering: attribute -> assigned positive integer.
pub open spec fn numbering_view(m: Seq<(Attribute, u32)>) -> Seq<(AttrV, u32)> {
    m.map_values(|e: (Attribute, u32)| (e.0@, e.1))
}

/// Number assigned to the next fresh literal of a numbering of length `n`.
pub open spec fn fresh_literal_value(n: int) -> u32 {
    if n + 1 <= u32::MAX {
        (n + 1) as u32
    } else {
        0
    }
}

/// Polynomial evaluation of an expression: `Or` is addition, `And` is
/// multiplication (both wrapping), `All` is 0, and each literal evaluates to
/// the integer the shared numbering `m` assigns to it, extending `m` at its
/// first visit. Returns the value and the extended numbering.
pub open spec fn spec_to_u32(ap: ApV, m: Seq<(AttrV, u32)>) -> (u32, Seq<(AttrV, u32)>)
    decreases ap,
{
    match ap {
        ApV::Attr(a) => match alist_find_idx(m, a) {
            Some(i) => (m[i].1, m),
            None => (
                fresh_literal_value(m.len() as int),
                m.push((a, fresh_literal_value(m.len() as int))),
            ),
        },
        ApV::And(l, r) => {
            let lm = spec_to_u32(*l, m);
            let rm = spec_to_u32(*r, lm.1);
            (vstd::wrapping::u32_specs::wrapping_mul(lm.0, rm.0), rm.1)
        },
        ApV::Or(l, r) => {
            let lm = spec_to_u32(*l, m);
            let rm = spec_to_u32(*r, lm.1);
            (vstd::wrapping::u32_specs::wrapping_add(lm.0, rm.0), rm.1)
        },
        ApV::All => (0u32, m),
    }
}

/// Structural equality of two expressions: equal polynomial evaluations
/// under one shared literal numbering, and equal sorted literal sequences.
/// It tolerates grouping differences and is meant for comparison and
/// deduplication, never as a security boundary.
pub open spec fn access_policy_eq(a: ApV, b: ApV) -> bool {
    let la = spec_to_u32(a, Seq::empty());
    let lb = spec_to_u32(b, la.1);
    &&& la.0 == lb.0
    &&& sort_attrs(attrs_of(a)) == sort_attrs(attrs_of(b))
}

impl AccessPolicy {
    /// Polynomial evaluation of the expression under the shared literal
    /// numbering `mapping`, extending it at each first-seen literal.
    fn to_u32(&self, mapping: &mut Vec<(Attribute, u32)>) -> (r: u32)
        ensures
            ({
                let sm = spec_to_u32(self@, numbering_view(old(mapping)@));
                r == sm.0 && numbering_view(final(mapping)@) =~= sm.1
            }),
        decreases self,
    {
        match self {
            AccessPolicy::Attr(a) => {
                proof {
                    assert(*self == AccessPolicy::Attr(*a));
                }
                let ghost m = numbering_view(mapping@);
                let mut i: usize = 0;
                while i < mapping.len()
                    invariant
                        0 <= i <= mapping.len(),
                        self@ == ApV::Attr(a@),
                        m == numbering_view(mapping@),
                        m.len() == mapping@.len(),
                        forall|j: int| 0 <= j < i ==> m[j].0 != a@,
                        forall|j: int|
                            0 <= j < mapping.len() ==> m[j] == (mapping@[j].0@, mapping@[j].1),
                    decreases mapping.len() - i,
                {
                    if mapping[i].0.eq(a) {
                        proof {
                            assert(m[i as int].0 == a@);
                            lemma_alist_find_idx_of_first(m, a@, i as int);
                            assert(alist_find_idx(m, a@) == Some(i as int));
                        }
                        return mapping[i].1;
                    }
                    i = i + 1;
                }
                proof {
                    lemma_alist_find_idx_char(m, a@);
                }
                let v: u32 = if mapping.len() >= (u32::MAX as usize) {
                    0u32
                } else {
                    (mapping.len() + 1) as u32
                };
                mapping.push((Attribute::new(a.axis.as_str(), a.name.as_str()), v));
                v
            },
            AccessPolicy::And(l, r) => {
                let lv = l.to_u32(mapping);
                let rv = r.to_u32(mapping);
                lv.wrapping_mul(rv)
            },
            AccessPolicy::Or(l, r) => {
                let lv = l.to_u32(mapping);
                let rv = r.to_u32(mapping);
                lv.wrapping_add(rv)
            },
            AccessPolicy::All => 0u32,
        }
    }
}

impl PartialEq for AccessPolicy {
    /// Structural equality: a free-standing, whole-expression comparison
    /// rebuilt on every call from a fresh shared literal numbering.
    fn eq(&self, other: &Self) -> (r: bool) {
        let mut mapping: Vec<(Attribute, u32)> = Vec::new();
        let ghost la = spec_to_u32(self@, Seq::<(AttrV, u32)>::empty());
        let ghost lb = spec_to_u32(other@, la.1);
        proof {
            assert(numbering_view(mapping@) =~= Seq::<(AttrV, u32)>::empty());
        }
        let left = self.to_u32(&mut mapping);
        proof {
            assert(left == la.0);
            assert(numbering_view(mapping@) == la.1);
        }
        let right = other.to_u32(&mut mapping);
        proof {
            assert(right == lb.0);
        }
        if left != right {
            return false;
        }
        let sa = self.attributes();
        let sb = other.attributes();
        let ghost va = sa@.map_values(|a: Attribute| a@);
        let ghost vb = sb@.map_values(|a: Attribute| a@);
        proof {
            assert(va =~= sort_attrs(attrs_of(self@)));
            assert(vb =~= sort_attrs(attrs_of(other@)));
        }
        if sa.len() != sb.len() {
            proof {
                assert(va.len() != vb.len());
            }
            return false;
        }
        let mut i: usize = 0;
        while i < sa.len()
            invariant
                0 <= i <= sa.len(),
                va == sa@.map_values(|a: Attribute| a@),
                vb == sb@.map_values(|a: Attribute| a@),
                va == sort_attrs(attrs_of(self@)),
                vb == sort_attrs(attrs_of(other@)),
                spec_to_u32(self@, Seq::<(AttrV, u32)>::empty()).0 == spec_to_u32(
                    other@,
                    spec_to_u32(self@, Seq::<(AttrV, u32)>::empty()).1,
                ).0,
                va.len() == sa@.len(),
                vb.len() == sb@.len(),
                sa@.len() == sb@.len(),
                forall|j: int| 0 <= j < i ==> va[j] == vb[j],
            decreases sa.len() - i,
        {
            if !sa[i].eq(&sb[i]) {
                proof {
                    assert(va[i as int] == sa@[i as int]@);
                    assert(vb[i as int] == sb@[i as int]@);
                    assert(va[i as int] != vb[i as int]);
                    assert(va != vb);
                }
                return false;
            }
            i = i + 1;
        }
        proof {
            assert(va =~= vb);
        }
        true
    }
}

impl vstd::std_specs::cmp::PartialEqSpecImpl for AccessPolicy {
    open spec fn obeys_eq_spec() -> bool {
        true
    }

    open spec fn eq_spec(&self, other: &Self) -> bool {
        access_policy_eq(self@, other@)
    }
}

// ------------------------------------------------------------------
// Construction from a per-axis attribute map.
// ------------------------------------------------------------------

/// View of a per-axis attribute name map.
pub open spec fn axes_map_view(axes: Seq<(String, Vec<String>)>) -> Seq<(Seq<char>, Seq<Seq<char>>)> {
    axes.map_values(|e: (String, Vec<String>)| (e.0@, e.1@.map_values(|s: String| s@)))
}

/// Left-associated disjunction of the literals of one axis.
pub open spec fn spec_axis_or(axis: Seq<char>, names: Seq<Seq<char>>) -> ApV
    recommends
        names.len() > 0,
    decreases names.len(),
{
    if names.len() <= 1 {
        ApV::Attr(AttrV { axis: axis, name: names[0] })
    } else {
        ApV::Or(
            Box::new(spec_axis_or(axis, names.drop_last())),
            Box::new(ApV::Attr(AttrV { axis: axis, name: names.last() })),
        )
    }
}

/// Left-associated conjunction of the per-axis disjunctions.
pub open spec fn spec_axes_and(axes: Seq<(Seq<char>, Seq<Seq<char>>)>) -> ApV
    recommends
        axes.len() > 0,
    decreases axes.len(),
{
    if axes.len() <= 1 {
        spec_axis_or(axes[0].0, axes[0].1)
    } else {
        ApV::And(
            Box::new(spec_axes_and(axes.drop_last())),
            Box::new(spec_axis_or(axes.last().0, axes.last().1)),
        )
    }
}

/// First axis of the map with an empty attribute list, at or after `i`.
pub open spec fn first_empty_axis_from(axes: Seq<(Seq<char>, Seq<Seq<char>>)>, i: int) -> Option<
    int,
>
    decreases axes.len() - i,
{
    if i < 0 || i >= axes.len() {
        None
    } else if axes[i].1.len() == 0 {
        Some(i)
    } else {
        first_empty_axis_from(axes, i + 1)
    }
}

/// First axis of the map with an empty attribute list, if any.
pub open spec fn first_empty_axis(axes: Seq<(Seq<char>, Seq<Seq<char>>)>) -> Option<int> {
    first_empty_axis_from(axes, 0)
}

proof fn lemma_first_empty_axis_of_first(axes: Seq<(Seq<char>, Seq<Seq<char>>)>, i: int)
    requires
        0 <= i < axes.len(),
        axes[i].1.len() == 0,
        forall|j: int| 0 <= j < i ==> #[trigger] axes[j].1.len() != 0,
    ensures
        first_empty_axis(axes) == Some(i),
{
    lemma_first_empty_axis_from_of_first(axes, 0, i);
}

proof fn lemma_first_empty_axis_from_of_first(axes: Seq<(Seq<char>, Seq<Seq<char>>)>, lo: int, i: int)
    requires
        0 <= lo <= i < axes.len(),
        axes[i].1.len() == 0,
        forall|j: int| lo <= j < i ==> #[trigger] axes[j].1.len() != 0,
    ensures
        first_empty_axis_from(axes, lo) == Some(i),
    decreases i - lo,
{
    if lo < i {
        lemma_first_empty_axis_from_of_first(axes, lo + 1, i);
    }
}

proof fn lemma_first_empty_axis_none(axes: Seq<(Seq<char>, Seq<Seq<char>>)>, lo: int)
    requires
        0 <= lo,
        forall|j: int| lo <= j < axes.len() ==> #[trigger] axes[j].1.len() != 0,
    ensures
        first_empty_axis_from(axes, lo) is None,
    decreases axes.len() - lo,
{
    if lo < axes.len() {
        lemma_first_empty_axis_none(axes, lo + 1);
    }
}

impl AccessPolicy {
    /// Builds an access policy from a map of axis names to attribute names:
    /// the attributes of one axis are `Or`-ed together and the per-axis
    /// results are `And`-ed, in map order.
    ///
    /// Fails with `MissingAttribute` on the first axis with an empty
    /// attribute list and with `MissingAxis` on an empty map.
    pub fn from_axes(axes_attributes: &Vec<(String, Vec<String>)>) -> (r: Result<Self, Error>)
        ensures
            ({
                let v = axes_map_view(axes_attributes@);
                match r {
                    Ok(ap) => {
                        &&& v.len() > 0
                        &&& first_empty_axis(v) is None
                        &&& ap@ == spec_axes_and(v)
                    },
                    Err(e) => match e {
                        Error::MissingAxis => v.len() == 0,
                        Error::MissingAttribute { item, axis_name } => {
                            &&& first_empty_axis(v) matches Some(i)
                            &&& item is None
                            &&& (axis_name matches Some(s) && s@ == v[first_empty_axis(
                                v,
                            ).unwrap()].0)
                        },
                        _ => false,
                    },
                }
            }),
    {
        let ghost v = axes_map_view(axes_attributes@);
        if axes_attributes.len() == 0 {
            return Err(Error::MissingAxis);
        }
        let mut acc: Option<AccessPolicy> = None;
        let mut i: usize = 0;
        while i < axes_attributes.len()
            invariant
                0 <= i <= axes_attributes.len(),
                v == axes_map_view(axes_attributes@),
                v.len() == axes_attributes@.len(),
                forall|j: int| 0 <= j < i ==> #[trigger] v[j].1.len() != 0,
                i == 0 <==> acc is None,
                i > 0 ==> (acc matches Some(ap) && ap@ == spec_axes_and(v.take(i as int))),
            decreases axes_attributes.len() - i,
        {
            proof {
                assert(v[i as int] == (
                    axes_attributes@[i as int].0@,
                    axes_attributes@[i as int].1@.map_values(|s: String| s@),
                ));
            }
            let names = &axes_attributes[i].1;
            let ghost vn = v[i as int].1;
            if names.len() == 0 {
                proof {
                    lemma_first_empty_axis_of_first(v, i as int);
                }
                return Err(
                    Error::MissingAttribute {
                        item: None,
                        axis_name: Some(axes_attributes[i].0.clone()),
                    },
                );
            }
            // OR-fold of this axis's literals, left-associated.
            let axis_name = &axes_attributes[i].0;
            let mut or_acc = AccessPolicy::new(axis_name.as_str(), names[0].as_str());
            proof {
                assert(vn[0] == names@[0]@);
                assert(vn.take(1).len() == 1);
                assert(vn.take(1)[0] == vn[0]);
                assert(or_acc@ == spec_axis_or(v[i as int].0, vn.take(1)));
            }
            let mut j: usize = 1;
            while j < names.len()
                invariant
                    1 <= j <= names.len(),
                    vn == v[i as int].1,
                    vn.len() == names@.len(),
                    forall|k: int| 0 <= k < names@.len() ==> vn[k] == #[trigger] names@[k]@,
                    v == axes_map_view(axes_attributes@),
                    v.len() == axes_attributes@.len(),
                    0 <= i < axes_attributes@.len(),
                    axis_name@ == v[i as int].0,
                    or_acc@ == spec_axis_or(v[i as int].0, vn.take(j as int)),
                decreases names.len() - j,
            {
                let lit = AccessPolicy::new(axis_name.as_str(), names[j].as_str());
                or_acc = or_acc.or(lit);
                proof {
                    assert(vn.take(j + 1).drop_last() =~= vn.take(j as int));
                    assert(vn.take(j + 1).last() == vn[j as int]);
                }
                j = j + 1;
            }
            proof {
                assert(vn.take(vn.len() as int) =~= vn);
            }
            // AND-fold with the previous axes.
            acc = match acc {
                None => Some(or_acc),
                Some(prev) => Some(prev.and(or_acc)),
            };
            proof {
                assert(v.take(i + 1).drop_last() =~= v.take(i as int));
                assert(v.take(i + 1).last() == v[i as int]);
            }
            i = i + 1;
        }
        proof {
            assert(v.take(v.len() as int) =~= v);
            lemma_first_empty_axis_none(v, 0);
        }
        match acc {
            Some(ap) => Ok(ap),
            None => Err(Error::MissingAxis),
        }
    }
}


// ------------------------------------------------------------------
// Combination enumeration.
// ------------------------------------------------------------------

/// View of a list of conjunction tuples.
pub open spec fn combos_view(v: Seq<Vec<Attribute>>) -> Seq<Seq<AttrV>> {
    v.map_values(|t: Vec<Attribute>| t@.map_values(|a: Attribute| a@))
}

/// One row of a cartesian product: `x` concatenated with each tuple of `r`.
pub open spec fn product_row(x: Seq<AttrV>, r: Seq<Seq<AttrV>>) -> Seq<Seq<AttrV>> {
    Seq::new(r.len(), |j: int| x + r[j])
}

/// Cartesian product of two tuple lists, row-major.
pub open spec fn tuple_product(l: Seq<Seq<AttrV>>, r: Seq<Seq<AttrV>>) -> Seq<Seq<AttrV>>
    decreases l.len(),
{
    if l.len() == 0 {
        Seq::empty()
    } else {
        product_row(l[0], r) + tuple_product(l.subrange(1, l.len() as int), r)
    }
}

proof fn lemma_tuple_product_push(l: Seq<Seq<AttrV>>, x: Seq<AttrV>, r: Seq<Seq<AttrV>>)
    ensures
        tuple_product(l.push(x), r) =~~= tuple_product(l, r) + product_row(x, r),
    decreases l.len(),
{
    if l.len() == 0 {
        assert(l.push(x).subrange(1, l.push(x).len() as int) =~~= l);
        assert(l.push(x)[0] == x);
    } else {
        assert(l.push(x)[0] == l[0]);
        assert(l.push(x).subrange(1, l.push(x).len() as int) =~~= l.subrange(
            1,
            l.len() as int,
        ).push(x));
        lemma_tuple_product_push(l.subrange(1, l.len() as int), x, r);
    }
}

/// Number of ranks listed strictly before `name` in an axis's attribute
/// order: the index of its first occurrence, or the length if absent.
pub open spec fn rank_prefix_len_from(names: Seq<Seq<char>>, name: Seq<char>, i: int) -> int
    decreases names.len() - i,
{
    if i < 0 || i >= names.len() {
        names.len() as int
    } else if names[i] == name {
        i
    } else {
        rank_prefix_len_from(names, name, i + 1)
    }
}

/// Index of the first occurrence of `name` in `names`, or the length.
pub open spec fn rank_prefix_len(names: Seq<Seq<char>>, name: Seq<char>) -> int {
    rank_prefix_len_from(names, name, 0)
}

/// The disjunctive normal form of an expression, resolved against the stored
/// axes: a list of conjunction tuples whose disjunction is the expression's
/// meaning. A literal of a hierarchical axis additionally yields, when
/// `follow` is set, one singleton tuple per rank listed before it. Fails
/// with the axis name of the first literal (in evaluation order) whose axis
/// is not registered.
pub open spec fn spec_combinations(
    ap: ApV,
    axes: Seq<(Seq<char>, AxisParamsV)>,
    follow: bool,
) -> Result<Seq<Seq<AttrV>>, Seq<char>>
    decreases ap,
{
    match ap {
        ApV::Attr(a) => {
            if !alist_has(axes, a.axis) {
                Err(a.axis)
            } else {
                let params = alist_get(axes, a.axis);
                if params.is_hierarchical && follow {
                    Ok(
                        seq![seq![a]] + Seq::new(
                            rank_prefix_len(params.attribute_names, a.name) as nat,
                            |i: int| seq![AttrV { axis: a.axis, name: params.attribute_names[i] }],
                        ),
                    )
                } else {
                    Ok(seq![seq![a]])
                }
            }
        },
        ApV::And(l, r) => match spec_combinations(*l, axes, follow) {
            Err(e) => Err(e),
            Ok(cl) => match spec_combinations(*r, axes, follow) {
                Err(e) => Err(e),
                Ok(cr) => Ok(tuple_product(cl, cr)),
            },
        },
        ApV::Or(l, r) => match spec_combinations(*l, axes, follow) {
            Err(e) => Err(e),
            Ok(cl) => match spec_combinations(*r, axes, follow) {
                Err(e) => Err(e),
                Ok(cr) => Ok(cl + cr),
            },
        },
        ApV::All => Ok(seq![Seq::<AttrV>::empty()]),
    }
}

/// Concatenation of two attribute tuples, as fresh values.
fn concat_attrs(a: &Vec<Attribute>, b: &Vec<Attribute>) -> (r: Vec<Attribute>)
    ensures
        r@.map_values(|x: Attribute| x@) =~= a@.map_values(|x: Attribute| x@) + b@.map_values(
            |x: Attribute| x@,
        ),
{
    let mut out: Vec<Attribute> = Vec::new();
    let mut i: usize = 0;
    while i < a.len()
        invariant
            0 <= i <= a.len(),
            out@.len() == i,
            forall|j: int| 0 <= j < i ==> #[trigger] out@[j]@ == a@[j]@,
        decreases a.len() - i,
    {
        let x = &a[i];
        out.push(Attribute::new(x.axis.as_str(), x.name.as_str()));
        i = i + 1;
    }
    let mut i: usize = 0;
    while i < b.len()
        invariant
            0 <= i <= b.len(),
            out@.len() == a@.len() + i,
            forall|j: int| 0 <= j < a@.len() ==> #[trigger] out@[j]@ == a@[j]@,
            forall|j: int|
                a@.len() <= j < a@.len() + i ==> #[trigger] out@[j]@ == b@[j - a@.len()]@,
        decreases b.len() - i,
    {
        let x = &b[i];
        out.push(Attribute::new(x.axis.as_str(), x.name.as_str()));
        i = i + 1;
    }
    out
}

impl AccessPolicy {
    /// Resolves the expression against `policy` into its disjunctive normal
    /// form: an ordered list of conjunction tuples, evaluated left to right
    /// (`And` is the cartesian product, `Or` the concatenation, `All` one
    /// empty tuple). With `follow_hierarchical_axes` set, a literal of a
    /// hierarchical axis also yields one singleton tuple per rank listed
    /// before it in the axis order.
    ///
    /// Fails with `InvalidAxis` on the first literal whose axis is absent
    /// from the registry.
    pub fn to_attribute_combinations(
        &self,
        policy: &Policy,
        follow_hierarchical_axes: bool,
    ) -> (r: Result<Vec<Vec<Attribute>>, Error>)
        ensures
            match spec_combinations(self@, policy@.axes, follow_hierarchical_axes) {
                Ok(c) => r matches Ok(v) && combos_view(v@) =~~= c,
                Err(ax) => r matches Err(e) && (e matches Error::InvalidAxis(s) && s@ == ax),
            },
        decreases self,
    {
        match self {
            AccessPolicy::Attr(attr) => {
                match policy.find_axis(attr.axis.as_str()) {
                    None => Err(Error::InvalidAxis(attr.axis.clone())),
                    Some(params) => {
                        let ghost pv = alist_get(policy@.axes, attr@.axis);
                        let mut res: Vec<Vec<Attribute>> = Vec::new();
                        let mut first: Vec<Attribute> = Vec::new();
                        first.push(Attribute::new(attr.axis.as_str(), attr.name.as_str()));
                        res.push(first);
                        proof {
                            assert(combos_view(res@)[0] =~~= seq![attr@]);
                        }
                        if params.is_hierarchical && follow_hierarchical_axes {
                            let ghost names = pv.attribute_names;
                            // rank of the literal in the stored axis order
                            let mut k: usize = 0;
                            loop
                                invariant
                                    0 <= k <= params.attribute_names.len(),
                                    params@ == pv,
                                    names == pv.attribute_names,
                                    names.len() == params.attribute_names@.len(),
                                    forall|j: int|
                                        0 <= j < names.len() ==> names[j]
                                            == #[trigger] params.attribute_names@[j]@,
                                    attr@.name == attr.name@,
                                    rank_prefix_len(names, attr@.name) == rank_prefix_len_from(
                                        names,
                                        attr@.name,
                                        k as int,
                                    ),
                                ensures
                                    k == rank_prefix_len(names, attr@.name),
                                decreases params.attribute_names.len() - k,
                            {
                                if k >= params.attribute_names.len() {
                                    break;
                                }
                                if crate::text::str_eq(
                                    params.attribute_names[k].as_str(),
                                    attr.name.as_str(),
                                ) {
                                    break;
                                }
                                k = k + 1;
                            }
                            let mut i: usize = 0;
                            while i < k
                                invariant
                                    0 <= i <= k <= params.attribute_names.len(),
                                    params@ == pv,
                                    names == pv.attribute_names,
                                    names.len() == params.attribute_names@.len(),
                                    forall|j: int|
                                        0 <= j < names.len() ==> names[j]
                                            == #[trigger] params.attribute_names@[j]@,
                                    attr@.axis == attr.axis@,
                                    res@.len() == i + 1,
                                    combos_view(res@)[0] == seq![attr@],
                                    forall|j: int|
                                        1 <= j < i + 1 ==> #[trigger] combos_view(res@)[j]
                                            == seq![AttrV { axis: attr@.axis, name: names[j - 1] }],
                                decreases k - i,
                            {
                                let ghost prev = res@;
                                let mut t: Vec<Attribute> = Vec::new();
                                t.push(
                                    Attribute::new(
                                        attr.axis.as_str(),
                                        params.attribute_names[i].as_str(),
                                    ),
                                );
                                res.push(t);
                                proof {
                                    assert(combos_view(res@)[i + 1] =~~= seq![
                                        AttrV { axis: attr@.axis, name: names[i as int] },
                                    ]);
                                    assert(forall|j: int|
                                        0 <= j < prev.len() ==> #[trigger] combos_view(res@)[j]
                                            == combos_view(prev)[j]);
                                }
                                i = i + 1;
                            }
                            proof {
                                let c = seq![seq![attr@]] + Seq::new(
                                    rank_prefix_len(names, attr@.name) as nat,
                                    |j: int| seq![AttrV { axis: attr@.axis, name: names[j] }],
                                );
                                assert forall|idx: int|
                                    0 <= idx < res@.len() implies combos_view(res@)[idx] == c[idx] by {
                                    if idx == 0 {
                                    } else {
                                        assert(combos_view(res@)[idx] == seq![
                                            AttrV { axis: attr@.axis, name: names[idx - 1] },
                                        ]);
                                    }
                                }
                                assert(combos_view(res@) =~= c);
                            }
                        }
                        Ok(res)
                    },
                }
            },
            AccessPolicy::And(l, r) => {
                match l.to_attribute_combinations(policy, follow_hierarchical_axes) {
                    Err(e) => Err(e),
                    Ok(cl) => match r.to_attribute_combinations(policy, follow_hierarchical_axes) {
                        Err(e) => Err(e),
                        Ok(cr) => {
                            let ghost lv = combos_view(cl@);
                            let ghost rv = combos_view(cr@);
                            proof {
                                assert(spec_combinations(
                                    self@,
                                    policy@.axes,
                                    follow_hierarchical_axes,
                                ) matches Ok(c) && c =~~= tuple_product(lv, rv));
                            }
                            let mut res: Vec<Vec<Attribute>> = Vec::new();
                            let mut i: usize = 0;
                            while i < cl.len()
                                invariant
                                    0 <= i <= cl.len(),
                                    lv == combos_view(cl@),
                                    rv == combos_view(cr@),
                                    lv.len() == cl@.len(),
                                    rv.len() == cr@.len(),
                                    res@.len() == i * rv.len(),
                                    forall|x: int, y: int|
                                        0 <= x < i && 0 <= y < rv.len()
                                            ==> #[trigger] combos_view(res@)[x * rv.len() + y]
                                            == lv[x] + rv[y],
                                decreases cl.len() - i,
                            {
                                let mut j: usize = 0;
                                while j < cr.len()
                                    invariant
                                        0 <= i < cl.len(),
                                        0 <= j <= cr.len(),
                                        lv == combos_view(cl@),
                                        rv == combos_view(cr@),
                                        lv.len() == cl@.len(),
                                        rv.len() == cr@.len(),
                                        res@.len() == i * rv.len() + j,
                                        forall|x: int, y: int|
                                            0 <= x < i && 0 <= y < rv.len()
                                                ==> #[trigger] combos_view(res@)[x * rv.len() + y]
                                                == lv[x] + rv[y],
                                        forall|y: int|
                                            0 <= y < j
                                                ==> #[trigger] combos_view(res@)[i * rv.len() + y]
                                                == lv[i as int] + rv[y],
                                    decreases cr.len() - j,
                                {
                                    let ghost prev = res@;
                                    res.push(concat_attrs(&cl[i], &cr[j]));
                                    proof {
                                        assert(cl@[i as int]@.map_values(|x: Attribute| x@)
                                            == lv[i as int]);
                                        assert(cr@[j as int]@.map_values(|x: Attribute| x@)
                                            == rv[j as int]);
                                        assert(combos_view(res@)[prev.len() as int] == lv[i as int]
                                            + rv[j as int]);
                                        assert(forall|idx: int|
                                            0 <= idx < prev.len() ==> #[trigger] combos_view(
                                                res@,
                                            )[idx] == combos_view(prev)[idx]);
                                        assert forall|x: int, y: int|
                                            0 <= x < i && 0 <= y < rv.len()
                                                implies #[trigger] combos_view(res@)[x * rv.len()
                                                + y] == lv[x] + rv[y] by {
                                            assert(x * rv.len() + y < i * rv.len())
                                                by (nonlinear_arith)
                                                requires
                                                    0 <= x < i,
                                                    0 <= y < rv.len(),
                                            ;
                                            assert(combos_view(res@)[x * rv.len() + y]
                                                == combos_view(prev)[x * rv.len() + y]);
                                        }
                                    }
                                    j = j + 1;
                                }
                                proof {
                                    assert((i + 1) * rv.len() == i * rv.len() + rv.len())
                                        by (nonlinear_arith);
                                }
                                i = i + 1;
                            }
                            proof {
                                let c = tuple_product(lv, rv);
                                lemma_tuple_product_shape(lv, rv);
                                assert forall|idx: int|
                                    0 <= idx < res@.len() implies combos_view(res@)[idx] == c[idx] by {
                                    let x = idx / rv.len() as int;
                                    let y = idx % rv.len() as int;
                                    assert(idx == x * rv.len() + y) by (nonlinear_arith)
                                        requires
                                            rv.len() > 0,
                                            x == idx / rv.len() as int,
                                            y == idx % rv.len() as int,
                                    ;
                                    assert(0 <= x < lv.len() && 0 <= y < rv.len())
                                        by (nonlinear_arith)
                                        requires
                                            rv.len() > 0,
                                            x == idx / rv.len() as int,
                                            y == idx % rv.len() as int,
                                            0 <= idx < lv.len() * rv.len(),
                                    ;
                                    assert(combos_view(res@)[x * rv.len() + y] == lv[x] + rv[y]);
                                    assert(c[x * rv.len() + y] == lv[x] + rv[y]);
                                }
                                assert(combos_view(res@) =~= c);
                            }
                            Ok(res)
                        },
                    },
                }
            },
            AccessPolicy::Or(l, r) => {
                match l.to_attribute_combinations(policy, follow_hierarchical_axes) {
                    Err(e) => Err(e),
                    Ok(cl) => match r.to_attribute_combinations(policy, follow_hierarchical_axes) {
                        Err(e) => Err(e),
                        Ok(cr) => {
                            let ghost lv = combos_view(cl@);
                            let ghost rv = combos_view(cr@);
                            proof {
                                assert(spec_combinations(
                                    self@,
                                    policy@.axes,
                                    follow_hierarchical_axes,
                                ) matches Ok(c) && c =~~= lv + rv);
                            }
                            let mut res: Vec<Vec<Attribute>> = Vec::new();
                            let empty: Vec<Attribute> = Vec::new();
                            let mut i: usize = 0;
                            while i < cl.len()
                                invariant
                                    0 <= i <= cl.len(),
                                    lv == combos_view(cl@),
                                    lv.len() == cl@.len(),
                                    empty@.len() == 0,
                                    res@.len() == i,
                                    forall|j: int|
                                        0 <= j < i ==> #[trigger] combos_view(res@)[j] == lv[j],
                                decreases cl.len() - i,
                            {
                                let ghost prev = res@;
                                res.push(concat_attrs(&cl[i], &empty));
                                proof {
                                    assert(combos_view(res@)[prev.len() as int] =~= lv[i as int]);
                                    assert(forall|idx: int|
                                        0 <= idx < prev.len() ==> #[trigger] combos_view(res@)[idx]
                                            == combos_view(prev)[idx]);
                                }
                                i = i + 1;
                            }
                            let mut j: usize = 0;
                            while j < cr.len()
                                invariant
                                    0 <= j <= cr.len(),
                                    lv == combos_view(cl@),
                                    rv == combos_view(cr@),
                                    lv.len() == cl@.len(),
                                    rv.len() == cr@.len(),
                                    empty@.len() == 0,
                                    res@.len() == lv.len() + j,
                                    forall|idx: int|
                                        0 <= idx < lv.len() ==> #[trigger] combos_view(res@)[idx]
                                            == lv[idx],
                                    forall|idx: int|
                                        lv.len() <= idx < lv.len() + j
                                            ==> #[trigger] combos_view(res@)[idx] == rv[idx
                                            - lv.len()],
                                decreases cr.len() - j,
                            {
                                let ghost prev = res@;
                                res.push(concat_attrs(&cr[j], &empty));
                                proof {
                                    assert(combos_view(res@)[prev.len() as int] =~= rv[j as int]);
                                    assert(forall|idx: int|
                                        0 <= idx < prev.len() ==> #[trigger] combos_view(res@)[idx]
                                            == combos_view(prev)[idx]);
                                }
                                j = j + 1;
                            }
                            proof {
                                assert forall|idx: int|
                                    0 <= idx < res@.len() implies combos_view(res@)[idx] == (lv
                                    + rv)[idx] by {}
                                assert(combos_view(res@) =~= lv + rv);
                            }
                            Ok(res)
                        },
                    },
                }
            },
            AccessPolicy::All => {
                let mut res: Vec<Vec<Attribute>> = Vec::new();
                let empty: Vec<Attribute> = Vec::new();
                res.push(empty);
                proof {
                    assert(combos_view(res@)[0] =~= Seq::<AttrV>::empty());
                    assert(combos_view(res@) =~= seq![Seq::<AttrV>::empty()]);
                }
                Ok(res)
            },
        }
    }
}

/// Shape of a cartesian product: its length is the product of the lengths
/// and its entry at `x * |r| + y` pairs row `x` with column `y`.
proof fn lemma_tuple_product_shape(l: Seq<Seq<AttrV>>, r: Seq<Seq<AttrV>>)
    ensures
        tuple_product(l, r).len() == l.len() * r.len(),
        forall|x: int, y: int|
            0 <= x < l.len() && 0 <= y < r.len() ==> #[trigger] tuple_product(l, r)[x * r.len()
                + y] == l[x] + r[y],
    decreases l.len(),
{
    if l.len() == 0 {
    } else {
        let tail = l.subrange(1, l.len() as int);
        lemma_tuple_product_shape(tail, r);
        assert(tuple_product(l, r) == product_row(l[0], r) + tuple_product(tail, r));
        assert((l.len() - 1) * r.len() == l.len() * r.len() - r.len()) by (nonlinear_arith);
        assert forall|x: int, y: int|
            0 <= x < l.len() && 0 <= y < r.len() implies #[trigger] tuple_product(l, r)[x * r.len()
            + y] == l[x] + r[y] by {
            if x == 0 {
                assert(tuple_product(l, r)[y] == product_row(l[0], r)[y]);
            } else {
                assert(x * r.len() + y == (x - 1) * r.len() + y + r.len()) by (nonlinear_arith);
                assert(0 <= (x - 1) * r.len() + y < tail.len() * r.len()) by (nonlinear_arith)
                    requires
                        0 <= x - 1 < tail.len(),
                        0 <= y < r.len(),
                ;
                assert(tuple_product(l, r)[x * r.len() + y] == tuple_product(tail, r)[(x - 1)
                    * r.len() + y]);
                assert(tuple_product(tail, r)[(x - 1) * r.len() + y] == tail[x - 1] + r[y]);
            }
        }
    }
}


// ------------------------------------------------------------------
// Structural equality is reflexive: evaluating the same expression twice
// under one shared numbering yields the same value, because the second
// evaluation finds every literal already numbered.
// ------------------------------------------------------------------

/// `p` is an initial segment of `q`.
pub open spec fn numbering_prefix(p: Seq<(AttrV, u32)>, q: Seq<(AttrV, u32)>) -> bool {
    p.len() <= q.len() && q.subrange(0, p.len() as int) == p
}

proof fn lemma_find_idx_prefix(p: Seq<(AttrV, u32)>, q: Seq<(AttrV, u32)>, k: AttrV)
    requires
        numbering_prefix(p, q),
        alist_find_idx(p, k) is Some,
    ensures
        alist_find_idx(q, k) == alist_find_idx(p, k),
{
    let i = alist_find_idx(p, k).unwrap();
    lemma_alist_find_idx_char(p, k);
    assert forall|j: int| 0 <= j < i implies q[j].0 != k by {
        assert(q.subrange(0, p.len() as int)[j] == q[j]);
    }
    assert(q.subrange(0, p.len() as int)[i] == q[i]);
    lemma_alist_find_idx_of_first(q, k, i);
}

/// After evaluating `ap` from the numbering `m`, every numbering that the
/// result numbering is a prefix of already covers all literals of `ap`:
/// re-evaluating under it returns the same value and leaves it unchanged.
proof fn lemma_to_u32_stable(ap: ApV, m: Seq<(AttrV, u32)>, m2: Seq<(AttrV, u32)>)
    requires
        numbering_prefix(spec_to_u32(ap, m).1, m2),
    ensures
        spec_to_u32(ap, m2) == (spec_to_u32(ap, m).0, m2),
        numbering_prefix(m, m2),
    decreases ap,
{
    let r1 = spec_to_u32(ap, m);
    match ap {
        ApV::Attr(a) => {
            match alist_find_idx(m, a) {
                Some(i) => {
                    assert(r1.1 == m);
                    lemma_alist_find_idx_char(m, a);
                    lemma_find_idx_prefix(m, m2, a);
                    assert(m2.subrange(0, m.len() as int)[i] == m2[i]);
                    assert(m2[i] == m[i]);
                },
                None => {
                    assert(r1.1 == m.push((a, fresh_literal_value(m.len() as int))));
                    assert(numbering_prefix(m, r1.1)) by {
                        assert(r1.1.subrange(0, m.len() as int) =~= m);
                    }
                    assert(numbering_prefix(m, m2)) by {
                        assert(m2.subrange(0, m.len() as int) =~= m2.subrange(
                            0,
                            r1.1.len() as int,
                        ).subrange(0, m.len() as int));
                    }
                    assert(r1.1[m.len() as int].0 == a);
                    lemma_alist_find_idx_char(m, a);
                    assert(forall|j: int| 0 <= j < m.len() ==> #[trigger] r1.1[j] == m[j]);
                    lemma_alist_find_idx_of_first(r1.1, a, m.len() as int);
                    lemma_find_idx_prefix(r1.1, m2, a);
                    assert(alist_find_idx(m2, a) == Some(m.len() as int));
                    assert(m2[m.len() as int] == r1.1[m.len() as int]);
                    assert(spec_to_u32(ap, m2) == (r1.0, m2));
                },
            }
        },
        ApV::And(l, r) | ApV::Or(l, r) => {
            let rl = spec_to_u32(*l, m);
            let rr = spec_to_u32(*r, rl.1);
            assert(r1.1 == rr.1);
            lemma_to_u32_stable(*r, rl.1, m2);
            lemma_to_u32_stable(*l, m, m2);
        },
        ApV::All => {
        },
    }
}

/// Law (reflexivity of structural equality): every expression is
/// structurally equal to itself; in particular an expression restored
/// exactly, as by the parser round trip, is structurally equal to the
/// original.
pub proof fn lemma_access_policy_eq_refl(ap: ApV)
    ensures
        access_policy_eq(ap, ap),
{
    let la = spec_to_u32(ap, Seq::<(AttrV, u32)>::empty());
    assert(numbering_prefix(la.1, la.1)) by {
        assert(la.1.subrange(0, la.1.len() as int) =~= la.1);
    }
    lemma_to_u32_stable(ap, Seq::<(AttrV, u32)>::empty(), la.1);
}

} // verus!
