use vstd::prelude::*;
use vstd::string::StringSliceAdditionalSpecFns;

use crate::access_policy::{AccessPolicy, ApV};
use crate::attribute::{attr_text, Attribute, AttrV};
use crate::error::Error;
use crate::json::{
    enc_string, enc_u64, expect_char, expect_char_exec, parse_number, parse_number_exec,
    parse_str_body, parse_string, parse_string_exec, skip_ws, skip_ws_exec, write_string,
    write_u64,
};
use crate::policy::{
    AttrParamsV, AxisParamsV, EncryptionHint, LegacyPolicy, LegacyPolicyV, Policy,
    PolicyAttributesParameters, PolicyAxesParameters, PolicyV, PolicyVersion,
};
use crate::text::{chars_to_string, str_chars};

verus! {

// ------------------------------------------------------------------
// The structured textual encoding of policies and access policies, and the
// versioned decoder with its legacy-schema migration path.
//
// The encoding is JSON. A current-schema policy is an object with the
// members `version` (the string `V1`), `last_attribute_value`,
// `max_attribute_creations`, `axes` (axis name to axis parameters) and
// `attributes` (attribute text `axis::name` to attribute parameters), in
// that order; the legacy schema lacks `version` and stores each attribute's
// bare slot array instead of its parameter object.
// ------------------------------------------------------------------

/// Helper: appends the characters of a literal to the output.
fn write_lit(out: &mut Vec<char>, s: &str)
    ensures
        final(out)@ == old(out)@ + s@,
{
    let mut cs = str_chars(s);
    out.append(&mut cs);
}

// ------------------------------------------------------------------
// Writing.
// ------------------------------------------------------------------

/// Encoding of a string array from element `i` on, closing the bracket.
pub open spec fn enc_str_array_from(names: Seq<Seq<char>>, i: int) -> Seq<char>
    decreases names.len() - i,
{
    if i < 0 || i >= names.len() {
        seq![']']
    } else {
        (if i > 0 {
            seq![',']
        } else {
            Seq::empty()
        }) + enc_string(names[i]) + enc_str_array_from(names, i + 1)
    }
}

/// Encoding of a string array.
pub open spec fn enc_str_array(names: Seq<Seq<char>>) -> Seq<char> {
    seq!['['] + enc_str_array_from(names, 0)
}

/// Encoding of a slot array from element `i` on, closing the bracket.
pub open spec fn enc_u32_array_from(values: Seq<u32>, i: int) -> Seq<char>
    decreases values.len() - i,
{
    if i < 0 || i >= values.len() {
        seq![']']
    } else {
        (if i > 0 {
            seq![',']
        } else {
            Seq::empty()
        }) + enc_u64(values[i] as u64) + enc_u32_array_from(values, i + 1)
    }
}

/// Encoding of a slot array.
pub open spec fn enc_u32_array(values: Seq<u32>) -> Seq<char> {
    seq!['['] + enc_u32_array_from(values, 0)
}

/// Encoding of a stored axis: its attribute names in order and its
/// hierarchical flag.
pub open spec fn enc_axis_params(ap: AxisParamsV) -> Seq<char> {
    "{\"attribute_names\":"@ + enc_str_array(ap.attribute_names) + ",\"is_hierarchical\":"@ + (
    if ap.is_hierarchical {
        "true"@
    } else {
        "false"@
    }) + seq!['}']
}

/// Encoding of an encryption hint.
pub open spec fn enc_hint(h: EncryptionHint) -> Seq<char> {
    if h == EncryptionHint::Hybridized {
        "\"Hybridized\""@
    } else {
        "\"Classic\""@
    }
}

/// Encoding of a stored attribute: its slot history and its hint.
pub open spec fn enc_attr_params(ap: AttrParamsV) -> Seq<char> {
    "{\"values\":"@ + enc_u32_array(ap.values) + ",\"encryption_hint\":"@ + enc_hint(
        ap.encryption_hint,
    ) + seq!['}']
}

/// Encoding of the axes map from entry `i` on, closing the brace.
pub open spec fn enc_axes_from(axes: Seq<(Seq<char>, AxisParamsV)>, i: int) -> Seq<char>
    decreases axes.len() - i,
{
    if i < 0 || i >= axes.len() {
        seq!['}']
    } else {
        (if i > 0 {
            seq![',']
        } else {
            Seq::empty()
        }) + enc_string(axes[i].0) + seq![':'] + enc_axis_params(axes[i].1) + enc_axes_from(
            axes,
            i + 1,
        )
    }
}

/// Encoding of the attributes map from entry `i` on, closing the brace.
pub open spec fn enc_attrs_from(attrs: Seq<(AttrV, AttrParamsV)>, i: int) -> Seq<char>
    decreases attrs.len() - i,
{
    if i < 0 || i >= attrs.len() {
        seq!['}']
    } else {
        (if i > 0 {
            seq![',']
        } else {
            Seq::empty()
        }) + enc_string(attr_text(attrs[i].0)) + seq![':'] + enc_attr_params(attrs[i].1)
            + enc_attrs_from(attrs, i + 1)
    }
}

/// The whole encoding of a policy, entries in insertion order.
pub open spec fn enc_policy(p: PolicyV) -> Seq<char> {
    "{\"version\":\"V1\",\"last_attribute_value\":"@ + enc_u64(p.last as u64)
        + ",\"max_attribute_creations\":"@ + enc_u64(p.max as u64) + ",\"axes\":{"@ + enc_axes_from(
        p.axes,
        0,
    ) + ",\"attributes\":{"@ + enc_attrs_from(p.attributes, 0) + seq!['}']
}

/// Appends the encoding of a string array.
fn write_str_array(out: &mut Vec<char>, names: &Vec<String>)
    ensures
        final(out)@ == old(out)@ + enc_str_array(names@.map_values(|s: String| s@)),
{
    let ghost ns = names@.map_values(|s: String| s@);
    out.push('[');
    let mut i: usize = 0;
    while i < names.len()
        invariant
            0 <= i <= names.len(),
            ns == names@.map_values(|s: String| s@),
            ns.len() == names@.len(),
            old(out)@ + enc_str_array(ns) =~= out@ + enc_str_array_from(ns, i as int),
        decreases names.len() - i,
    {
        if i > 0 {
            out.push(',');
        }
        write_string(out, names[i].as_str());
        proof {
            assert(old(out)@ + enc_str_array(ns) =~= out@ + enc_str_array_from(ns, i + 1));
        }
        i = i + 1;
    }
    out.push(']');
}

/// Appends the encoding of a slot array.
fn write_u32_array(out: &mut Vec<char>, values: &Vec<u32>)
    ensures
        final(out)@ == old(out)@ + enc_u32_array(values@),
{
    out.push('[');
    let mut i: usize = 0;
    while i < values.len()
        invariant
            0 <= i <= values.len(),
            old(out)@ + enc_u32_array(values@) =~= out@ + enc_u32_array_from(values@, i as int),
        decreases values.len() - i,
    {
        if i > 0 {
            out.push(',');
        }
        write_u64(out, values[i] as u64);
        proof {
            assert(old(out)@ + enc_u32_array(values@) =~= out@ + enc_u32_array_from(
                values@,
                i + 1,
            ));
        }
        i = i + 1;
    }
    out.push(']');
}

/// Appends the encoding of a stored axis.
fn write_axis_params(out: &mut Vec<char>, ap: &PolicyAxesParameters)
    ensures
        final(out)@ == old(out)@ + enc_axis_params(ap@),
{
    write_lit(out, "{\"attribute_names\":");
    write_str_array(out, &ap.attribute_names);
    write_lit(out, ",\"is_hierarchical\":");
    if ap.is_hierarchical {
        write_lit(out, "true");
    } else {
        write_lit(out, "false");
    }
    out.push('}');
}

/// Appends the encoding of a stored attribute.
fn write_attr_params(out: &mut Vec<char>, ap: &PolicyAttributesParameters)
    ensures
        final(out)@ == old(out)@ + enc_attr_params(ap@),
{
    write_lit(out, "{\"values\":");
    write_u32_array(out, &ap.values);
    write_lit(out, ",\"encryption_hint\":");
    if ap.encryption_hint == EncryptionHint::Hybridized {
        write_lit(out, "\"Hybridized\"");
    } else {
        write_lit(out, "\"Classic\"");
    }
    out.push('}');
}

impl Policy {
    /// Renders the policy in its structured textual encoding: the current
    /// schema, with map entries in insertion order.
    pub fn to_json_string(&self) -> (r: String)
        ensures
            r@ == enc_policy(self@),
    {
        let mut out: Vec<char> = Vec::new();
        write_lit(&mut out, "{\"version\":\"V1\",\"last_attribute_value\":");
        write_u64(&mut out, self.last_attribute_value as u64);
        write_lit(&mut out, ",\"max_attribute_creations\":");
        write_u64(&mut out, self.max_attribute_creations as u64);
        write_lit(&mut out, ",\"axes\":{");
        let ghost axs = self@.axes;
        let ghost base = out@;
        let mut i: usize = 0;
        while i < self.axes.len()
            invariant
                0 <= i <= self.axes.len(),
                axs == self@.axes,
                axs.len() == self.axes@.len(),
                forall|j: int|
                    0 <= j < self.axes.len() ==> #[trigger] axs[j] == (
                        self.axes@[j].0@,
                        self.axes@[j].1@,
                    ),
                base + enc_axes_from(axs, 0) =~= out@ + enc_axes_from(axs, i as int),
            decreases self.axes.len() - i,
        {
            if i > 0 {
                out.push(',');
            }
            write_string(&mut out, self.axes[i].0.as_str());
            out.push(':');
            write_axis_params(&mut out, &self.axes[i].1);
            proof {
                assert(base + enc_axes_from(axs, 0) =~= out@ + enc_axes_from(axs, i + 1));
            }
            i = i + 1;
        }
        out.push('}');
        proof {
            assert(out@ =~= base + enc_axes_from(axs, 0));
        }
        write_lit(&mut out, ",\"attributes\":{");
        let ghost ats = self@.attributes;
        let ghost base2 = out@;
        let mut i: usize = 0;
        while i < self.attributes.len()
            invariant
                0 <= i <= self.attributes.len(),
                ats == self@.attributes,
                ats.len() == self.attributes@.len(),
                forall|j: int|
                    0 <= j < self.attributes.len() ==> #[trigger] ats[j] == (
                        self.attributes@[j].0@,
                        self.attributes@[j].1@,
                    ),
                base2 + enc_attrs_from(ats, 0) =~= out@ + enc_attrs_from(ats, i as int),
            decreases self.attributes.len() - i,
        {
            if i > 0 {
                out.push(',');
            }
            let key = self.attributes[i].0.to_text();
            write_string(&mut out, key.as_str());
            out.push(':');
            write_attr_params(&mut out, &self.attributes[i].1);
            proof {
                assert(base2 + enc_attrs_from(ats, 0) =~= out@ + enc_attrs_from(ats, i + 1));
            }
            i = i + 1;
        }
        out.push('}');
        proof {
            assert(out@ =~= base2 + enc_attrs_from(ats, 0));
        }
        out.push('}');
        proof {
            assert(out@ =~= base2 + enc_attrs_from(ats, 0) + seq!['}']);
            assert(base2 =~= base + enc_axes_from(axs, 0) + ",\"attributes\":{"@);
            assert(out@ =~= enc_policy(self@));
        }
        chars_to_string(&out)
    }
}

/// The whole encoding of an access policy: serde-style externally tagged
/// variants, each literal carried as its `axis::name` text.
pub open spec fn enc_ap(ap: ApV) -> Seq<char>
    decreases ap,
{
    match ap {
        ApV::Attr(a) => "{\"Attr\":"@ + enc_string(attr_text(a)) + seq!['}'],
        ApV::And(l, r) => "{\"And\":["@ + enc_ap(*l) + seq![','] + enc_ap(*r) + "]}"@,
        ApV::Or(l, r) => "{\"Or\":["@ + enc_ap(*l) + seq![','] + enc_ap(*r) + "]}"@,
        ApV::All => "\"All\""@,
    }
}

/// Appends the encoding of an access policy.
fn write_ap(out: &mut Vec<char>, ap: &AccessPolicy)
    ensures
        final(out)@ == old(out)@ + enc_ap(ap@),
    decreases ap,
{
    match ap {
        AccessPolicy::Attr(a) => {
            write_lit(out, "{\"Attr\":");
            let t = a.to_text();
            write_string(out, t.as_str());
            out.push('}');
        },
        AccessPolicy::And(l, r) => {
            write_lit(out, "{\"And\":[");
            write_ap(out, l);
            out.push(',');
            write_ap(out, r);
            write_lit(out, "]}");
        },
        AccessPolicy::Or(l, r) => {
            write_lit(out, "{\"Or\":[");
            write_ap(out, l);
            out.push(',');
            write_ap(out, r);
            write_lit(out, "]}");
        },
        AccessPolicy::All => {
            write_lit(out, "\"All\"");
        },
    }
}

impl AccessPolicy {
    /// Renders the expression in its structured textual encoding.
    pub fn to_json_string(&self) -> (r: String)
        ensures
            r@ == enc_ap(self@),
    {
        let mut out: Vec<char> = Vec::new();
        write_ap(&mut out, self);
        chars_to_string(&out)
    }
}


// ------------------------------------------------------------------
// Reading.
//
// Each parse function returns the decoded value and the index just past
// it, or nothing on a malformed text. List and object parsers carry a
// recursion budget, decremented at each separator; the initial budget is
// the text length, which no well-formed text can exhaust since every
// member consumes at least one character. Unknown object members are
// rejected.
// ------------------------------------------------------------------

/// `true` or `false` at `i`, after whitespace.
pub open spec fn parse_bool(s: Seq<char>, i: int) -> Option<(bool, int)> {
    let j = skip_ws(s, i);
    if j + 4 <= s.len() && s[j] == 't' && s[j + 1] == 'r' && s[j + 2] == 'u' && s[j + 3] == 'e' {
        Some((true, j + 4))
    } else if j + 5 <= s.len() && s[j] == 'f' && s[j + 1] == 'a' && s[j + 2] == 'l' && s[j + 3]
        == 's' && s[j + 4] == 'e' {
        Some((false, j + 5))
    } else {
        None
    }
}

fn parse_bool_exec(v: &Vec<char>, i: usize) -> (r: Option<(bool, usize)>)
    requires
        i <= v.len(),
    ensures
        match r {
            Some((b, j)) => parse_bool(v@, i as int) == Some((b, j as int)) && i <= j <= v.len(),
            None => parse_bool(v@, i as int) is None,
        },
{
    let j = skip_ws_exec(v, i);
    if v.len() - j >= 4 && v[j] == 't' && v[j + 1] == 'r' && v[j + 2] == 'u' && v[j + 3] == 'e' {
        Some((true, j + 4))
    } else if v.len() - j >= 5 && v[j] == 'f' && v[j + 1] == 'a' && v[j + 2] == 'l' && v[j + 3]
        == 's' && v[j + 4] == 'e' {
        Some((false, j + 5))
    } else {
        None
    }
}

/// An unsigned integer that fits a slot value.
pub open spec fn parse_u32v(s: Seq<char>, i: int) -> Option<(u32, int)> {
    match parse_number(s, i) {
        None => None,
        Some((n, j)) => if n > 0xFFFF_FFFFu64 {
            None
        } else {
            Some((n as u32, j))
        },
    }
}

fn parse_u32v_exec(v: &Vec<char>, i: usize) -> (r: Option<(u32, usize)>)
    requires
        i <= v.len(),
    ensures
        match r {
            Some((n, j)) => parse_u32v(v@, i as int) == Some((n, j as int)) && i <= j <= v.len(),
            None => parse_u32v(v@, i as int) is None,
        },
{
    match parse_number_exec(v, i) {
        None => None,
        Some((n, j)) => {
            if n > 0xFFFF_FFFFu64 {
                None
            } else {
                Some((n as u32, j))
            }
        },
    }
}

/// An encryption hint: the string `Hybridized` or `Classic`.
pub open spec fn parse_hint(s: Seq<char>, i: int) -> Option<(EncryptionHint, int)> {
    match parse_string(s, i) {
        None => None,
        Some((t, j)) => if t == "Hybridized"@ {
            Some((EncryptionHint::Hybridized, j))
        } else if t == "Classic"@ {
            Some((EncryptionHint::Classic, j))
        } else {
            None
        },
    }
}

/// Whether the characters of `v` spell the same text as `s`.
fn chars_eq_lit(v: &Vec<char>, s: &str) -> (r: bool)
    ensures
        r == (v@ == s@),
{
    let t = chars_to_string(v);
    crate::text::str_eq(t.as_str(), s)
}

fn parse_hint_exec(v: &Vec<char>, i: usize) -> (r: Option<(EncryptionHint, usize)>)
    requires
        i <= v.len(),
    ensures
        match r {
            Some((h, j)) => parse_hint(v@, i as int) == Some((h, j as int)) && i <= j <= v.len(),
            None => parse_hint(v@, i as int) is None,
        },
{
    match parse_string_exec(v, i) {
        None => None,
        Some((t, j)) => {
            if chars_eq_lit(&t, "Hybridized") {
                Some((EncryptionHint::Hybridized, j))
            } else if chars_eq_lit(&t, "Classic") {
                Some((EncryptionHint::Classic, j))
            } else {
                None
            }
        },
    }
}

/// Elements of a string array after the opening bracket, first element
/// expected.
pub open spec fn parse_str_items(s: Seq<char>, i: int, budget: nat) -> Option<
    (Seq<Seq<char>>, int),
>
    decreases budget,
{
    match parse_string(s, i) {
        None => None,
        Some((x, j)) => {
            let k = skip_ws(s, j);
            if k < s.len() && s[k] == ']' {
                Some((seq![x], k + 1))
            } else if k < s.len() && s[k] == ',' {
                if budget == 0 {
                    None
                } else {
                    match parse_str_items(s, k + 1, (budget - 1) as nat) {
                        None => None,
                        Some((xs, m)) => Some((seq![x] + xs, m)),
                    }
                }
            } else {
                None
            }
        },
    }
}

/// A string array at `i`.
pub open spec fn parse_str_array(s: Seq<char>, i: int) -> Option<(Seq<Seq<char>>, int)> {
    match expect_char(s, i, '[') {
        None => None,
        Some(j) => {
            let k = skip_ws(s, j);
            if k < s.len() && s[k] == ']' {
                Some((Seq::empty(), k + 1))
            } else {
                parse_str_items(s, j, s.len() as nat)
            }
        },
    }
}

fn parse_str_items_exec(v: &Vec<char>, i: usize, budget: usize) -> (r: Option<(Vec<String>, usize)>)
    requires
        i <= v.len(),
    ensures
        match r {
            Some((xs, j)) => parse_str_items(v@, i as int, budget as nat) == Some(
                (xs@.map_values(|x: String| x@), j as int),
            ) && i <= j <= v.len(),
            None => parse_str_items(v@, i as int, budget as nat) is None,
        },
    decreases budget,
{
    match parse_string_exec(v, i) {
        None => None,
        Some((x, j)) => {
            let k = skip_ws_exec(v, j);
            if k < v.len() && v[k] == ']' {
                let mut out: Vec<String> = Vec::new();
                out.push(chars_to_string(&x));
                proof {
                    assert(out@.map_values(|y: String| y@) =~= seq![x@]);
                }
                Some((out, k + 1))
            } else if k < v.len() && v[k] == ',' {
                if budget == 0 {
                    None
                } else {
                    match parse_str_items_exec(v, k + 1, budget - 1) {
                        None => None,
                        Some((xs, m)) => {
                            let mut out: Vec<String> = Vec::new();
                            out.push(chars_to_string(&x));
                            let mut rest = xs;
                            out.append(&mut rest);
                            proof {
                                assert(out@.map_values(|y: String| y@) =~= seq![x@]
                                    + parse_str_items(
                                    v@,
                                    k + 1,
                                    (budget - 1) as nat,
                                ).unwrap().0);
                            }
                            Some((out, m))
                        },
                    }
                }
            } else {
                None
            }
        },
    }
}

fn parse_str_array_exec(v: &Vec<char>, i: usize) -> (r: Option<(Vec<String>, usize)>)
    requires
        i <= v.len(),
    ensures
        match r {
            Some((xs, j)) => parse_str_array(v@, i as int) == Some(
                (xs@.map_values(|x: String| x@), j as int),
            ) && i <= j <= v.len(),
            None => parse_str_array(v@, i as int) is None,
        },
{
    match expect_char_exec(v, i, '[') {
        None => None,
        Some(j) => {
            let k = skip_ws_exec(v, j);
            if k < v.len() && v[k] == ']' {
                let out: Vec<String> = Vec::new();
                proof {
                    assert(out@.map_values(|y: String| y@) =~= Seq::<Seq<char>>::empty());
                }
                Some((out, k + 1))
            } else {
                parse_str_items_exec(v, j, v.len())
            }
        },
    }
}

/// Elements of a slot array after the opening bracket, first element
/// expected.
pub open spec fn parse_u32_items(s: Seq<char>, i: int, budget: nat) -> Option<(Seq<u32>, int)>
    decreases budget,
{
    match parse_u32v(s, i) {
        None => None,
        Some((x, j)) => {
            let k = skip_ws(s, j);
            if k < s.len() && s[k] == ']' {
                Some((seq![x], k + 1))
            } else if k < s.len() && s[k] == ',' {
                if budget == 0 {
                    None
                } else {
                    match parse_u32_items(s, k + 1, (budget - 1) as nat) {
                        None => None,
                        Some((xs, m)) => Some((seq![x] + xs, m)),
                    }
                }
            } else {
                None
            }
        },
    }
}

/// A slot array at `i`.
pub open spec fn parse_u32_array(s: Seq<char>, i: int) -> Option<(Seq<u32>, int)> {
    match expect_char(s, i, '[') {
        None => None,
        Some(j) => {
            let k = skip_ws(s, j);
            if k < s.len() && s[k] == ']' {
                Some((Seq::empty(), k + 1))
            } else {
                parse_u32_items(s, j, s.len() as nat)
            }
        },
    }
}

fn parse_u32_items_exec(v: &Vec<char>, i: usize, budget: usize) -> (r: Option<(Vec<u32>, usize)>)
    requires
        i <= v.len(),
    ensures
        match r {
            Some((xs, j)) => parse_u32_items(v@, i as int, budget as nat) == Some(
                (xs@, j as int),
            ) && i <= j <= v.len(),
            None => parse_u32_items(v@, i as int, budget as nat) is None,
        },
    decreases budget,
{
    match parse_u32v_exec(v, i) {
        None => None,
        Some((x, j)) => {
            let k = skip_ws_exec(v, j);
            if k < v.len() && v[k] == ']' {
                let mut out: Vec<u32> = Vec::new();
                out.push(x);
                proof {
                    assert(out@ =~= seq![x]);
                }
                Some((out, k + 1))
            } else if k < v.len() && v[k] == ',' {
                if budget == 0 {
                    None
                } else {
                    match parse_u32_items_exec(v, k + 1, budget - 1) {
                        None => None,
                        Some((xs, m)) => {
                            let mut out: Vec<u32> = Vec::new();
                            out.push(x);
                            let mut rest = xs;
                            out.append(&mut rest);
                            proof {
                                assert(out@ =~= seq![x] + parse_u32_items(
                                    v@,
                                    k + 1,
                                    (budget - 1) as nat,
                                ).unwrap().0);
                            }
                            Some((out, m))
                        },
                    }
                }
            } else {
                None
            }
        },
    }
}

fn parse_u32_array_exec(v: &Vec<char>, i: usize) -> (r: Option<(Vec<u32>, usize)>)
    requires
        i <= v.len(),
    ensures
        match r {
            Some((xs, j)) => parse_u32_array(v@, i as int) == Some((xs@, j as int)) && i <= j
                <= v.len(),
            None => parse_u32_array(v@, i as int) is None,
        },
{
    match expect_char_exec(v, i, '[') {
        None => None,
        Some(j) => {
            let k = skip_ws_exec(v, j);
            if k < v.len() && v[k] == ']' {
                let out: Vec<u32> = Vec::new();
                proof {
                    assert(out@ =~= Seq::<u32>::empty());
                }
                Some((out, k + 1))
            } else {
                parse_u32_items_exec(v, j, v.len())
            }
        },
    }
}

/// View of an optional string list accumulator.
pub open spec fn opt_strs_view(o: Option<Vec<String>>) -> Option<Seq<Seq<char>>> {
    match o {
        None => None,
        Some(xs) => Some(xs@.map_values(|x: String| x@)),
    }
}

/// Members of an axis-parameters object, first member expected; `names`
/// and `hier` hold the members already read.
pub open spec fn parse_axis_members(
    s: Seq<char>,
    i: int,
    names: Option<Seq<Seq<char>>>,
    hier: Option<bool>,
    budget: nat,
) -> Option<(AxisParamsV, int)>
    decreases budget,
{
    match parse_string(s, i) {
        None => None,
        Some((key, j)) => {
            let step: Option<(Option<Seq<Seq<char>>>, Option<bool>, int)> = if key
                == "attribute_names"@ {
                if names is Some {
                    None
                } else {
                    match expect_char(s, j, ':') {
                        None => None,
                        Some(j2) => match parse_str_array(s, j2) {
                            None => None,
                            Some((xs, j3)) => Some((Some(xs), hier, j3)),
                        },
                    }
                }
            } else if key == "is_hierarchical"@ {
                if hier is Some {
                    None
                } else {
                    match expect_char(s, j, ':') {
                        None => None,
                        Some(j2) => match parse_bool(s, j2) {
                            None => None,
                            Some((b, j3)) => Some((names, Some(b), j3)),
                        },
                    }
                }
            } else {
                None
            };
            match step {
                None => None,
                Some((names2, hier2, j3)) => {
                    let k = skip_ws(s, j3);
                    if k < s.len() && s[k] == '}' {
                        if names2 is Some && hier2 is Some {
                            Some(
                                (
                                    AxisParamsV {
                                        attribute_names: names2.unwrap(),
                                        is_hierarchical: hier2.unwrap(),
                                    },
                                    k + 1,
                                ),
                            )
                        } else {
                            None
                        }
                    } else if k < s.len() && s[k] == ',' {
                        if budget == 0 {
                            None
                        } else {
                            parse_axis_members(s, k + 1, names2, hier2, (budget - 1) as nat)
                        }
                    } else {
                        None
                    }
                },
            }
        },
    }
}

/// An axis-parameters object at `i`.
pub open spec fn parse_axis_params_v(s: Seq<char>, i: int) -> Option<(AxisParamsV, int)> {
    match expect_char(s, i, '{') {
        None => None,
        Some(j) => parse_axis_members(s, j, None, None, s.len() as nat),
    }
}

fn parse_axis_members_exec(
    v: &Vec<char>,
    i: usize,
    names: Option<Vec<String>>,
    hier: Option<bool>,
    budget: usize,
) -> (r: Option<(PolicyAxesParameters, usize)>)
    requires
        i <= v.len(),
    ensures
        match r {
            Some((ap, j)) => parse_axis_members(
                v@,
                i as int,
                opt_strs_view(names),
                hier,
                budget as nat,
            ) == Some((ap@, j as int)) && i <= j <= v.len(),
            None => parse_axis_members(v@, i as int, opt_strs_view(names), hier, budget as nat)
                is None,
        },
    decreases budget,
{
    match parse_string_exec(v, i) {
        None => None,
        Some((key, j)) => {
            let is_names = chars_eq_lit(&key, "attribute_names");
            let is_hier = chars_eq_lit(&key, "is_hierarchical");
            proof {
                reveal_strlit("attribute_names");
                reveal_strlit("is_hierarchical");
                assert("attribute_names"@[0] == 'a');
                assert("is_hierarchical"@[0] == 'i');
                assert("attribute_names"@ != "is_hierarchical"@);
            }
            if is_names {
                if names.is_some() {
                    return None;
                }
                match expect_char_exec(v, j, ':') {
                    None => None,
                    Some(j2) => match parse_str_array_exec(v, j2) {
                        None => None,
                        Some((xs, j3)) => axis_members_tail(
                            v,
                            j3,
                            Some(xs),
                            hier,
                            budget,
                            Ghost(opt_strs_view(names)),
                            Ghost(hier),
                        ),
                    },
                }
            } else if is_hier {
                if hier.is_some() {
                    return None;
                }
                match expect_char_exec(v, j, ':') {
                    None => None,
                    Some(j2) => match parse_bool_exec(v, j2) {
                        None => None,
                        Some((b, j3)) => axis_members_tail(
                            v,
                            j3,
                            names,
                            Some(b),
                            budget,
                            Ghost(opt_strs_view(names)),
                            Ghost(hier),
                        ),
                    },
                }
            } else {
                None
            }
        },
    }
}

/// Terminator handling shared by the member dispatch above: close the
/// object or read the next member.
fn axis_members_tail(
    v: &Vec<char>,
    j3: usize,
    names2: Option<Vec<String>>,
    hier2: Option<bool>,
    budget: usize,
    Ghost(names0): Ghost<Option<Seq<Seq<char>>>>,
    Ghost(hier0): Ghost<Option<bool>>,
) -> (r: Option<(PolicyAxesParameters, usize)>)
    requires
        j3 <= v.len(),
    ensures
        ({
            let k = skip_ws(v@, j3 as int);
            let step: Option<(PolicyAxesParameters, usize)> = r;
            match r {
                Some((ap, j)) => j3 <= j <= v.len() && ({
                    let k = skip_ws(v@, j3 as int);
                    if k < v@.len() && v@[k] == '}' {
                        opt_strs_view(names2) is Some && hier2 is Some && ap@ == (AxisParamsV {
                            attribute_names: opt_strs_view(names2).unwrap(),
                            is_hierarchical: hier2.unwrap(),
                        }) && j == k + 1
                    } else if k < v@.len() && v@[k] == ',' {
                        budget > 0 && parse_axis_members(
                            v@,
                            k + 1,
                            opt_strs_view(names2),
                            hier2,
                            (budget - 1) as nat,
                        ) == Some((ap@, j as int))
                    } else {
                        false
                    }
                }),
                None => ({
                    let k = skip_ws(v@, j3 as int);
                    if k < v@.len() && v@[k] == '}' {
                        !(opt_strs_view(names2) is Some && hier2 is Some)
                    } else if k < v@.len() && v@[k] == ',' {
                        budget == 0 || parse_axis_members(
                            v@,
                            k + 1,
                            opt_strs_view(names2),
                            hier2,
                            (budget - 1) as nat,
                        ) is None
                    } else {
                        true
                    }
                }),
            }
        }),
    decreases budget, 0int,
{
    let k = skip_ws_exec(v, j3);
    if k < v.len() && v[k] == '}' {
        match (names2, hier2) {
            (Some(ns), Some(h)) => Some(
                (PolicyAxesParameters { attribute_names: ns, is_hierarchical: h }, k + 1),
            ),
            _ => None,
        }
    } else if k < v.len() && v[k] == ',' {
        if budget == 0 {
            None
        } else {
            parse_axis_members_exec(v, k + 1, names2, hier2, budget - 1)
        }
    } else {
        None
    }
}

fn parse_axis_params_exec(v: &Vec<char>, i: usize) -> (r: Option<(PolicyAxesParameters, usize)>)
    requires
        i <= v.len(),
    ensures
        match r {
            Some((ap, j)) => parse_axis_params_v(v@, i as int) == Some((ap@, j as int)) && i <= j
                <= v.len(),
            None => parse_axis_params_v(v@, i as int) is None,
        },
{
    match expect_char_exec(v, i, '{') {
        None => None,
        Some(j) => parse_axis_members_exec(v, j, None, None, v.len()),
    }
}


/// Members of an attribute-parameters object, first member expected.
pub open spec fn parse_attr_members(
    s: Seq<char>,
    i: int,
    values: Option<Seq<u32>>,
    hint: Option<EncryptionHint>,
    budget: nat,
) -> Option<(AttrParamsV, int)>
    decreases budget,
{
    match parse_string(s, i) {
        None => None,
        Some((key, j)) => {
            let step: Option<(Option<Seq<u32>>, Option<EncryptionHint>, int)> = if key
                == "values"@ {
                if values is Some {
                    None
                } else {
                    match expect_char(s, j, ':') {
                        None => None,
                        Some(j2) => match parse_u32_array(s, j2) {
                            None => None,
                            Some((xs, j3)) => Some((Some(xs), hint, j3)),
                        },
                    }
                }
            } else if key == "encryption_hint"@ {
                if hint is Some {
                    None
                } else {
                    match expect_char(s, j, ':') {
                        None => None,
                        Some(j2) => match parse_hint(s, j2) {
                            None => None,
                            Some((h, j3)) => Some((values, Some(h), j3)),
                        },
                    }
                }
            } else {
                None
            };
            match step {
                None => None,
                Some((values2, hint2, j3)) => {
                    let k = skip_ws(s, j3);
                    if k < s.len() && s[k] == '}' {
                        if values2 is Some && hint2 is Some {
                            Some(
                                (
                                    AttrParamsV {
                                        values: values2.unwrap(),
                                        encryption_hint: hint2.unwrap(),
                                    },
                                    k + 1,
                                ),
                            )
                        } else {
                            None
                        }
                    } else if k < s.len() && s[k] == ',' {
                        if budget == 0 {
                            None
                        } else {
                            parse_attr_members(s, k + 1, values2, hint2, (budget - 1) as nat)
                        }
                    } else {
                        None
                    }
                },
            }
        },
    }
}

/// An attribute-parameters object at `i`.
pub open spec fn parse_attr_params_v(s: Seq<char>, i: int) -> Option<(AttrParamsV, int)> {
    match expect_char(s, i, '{') {
        None => None,
        Some(j) => parse_attr_members(s, j, None, None, s.len() as nat),
    }
}

/// View of an optional slot list accumulator.
pub open spec fn opt_u32s_view(o: Option<Vec<u32>>) -> Option<Seq<u32>> {
    match o {
        None => None,
        Some(xs) => Some(xs@),
    }
}

fn parse_attr_members_exec(
    v: &Vec<char>,
    i: usize,
    values: Option<Vec<u32>>,
    hint: Option<EncryptionHint>,
    budget: usize,
) -> (r: Option<(PolicyAttributesParameters, usize)>)
    requires
        i <= v.len(),
    ensures
        match r {
            Some((ap, j)) => parse_attr_members(
                v@,
                i as int,
                opt_u32s_view(values),
                hint,
                budget as nat,
            ) == Some((ap@, j as int)) && i <= j <= v.len(),
            None => parse_attr_members(v@, i as int, opt_u32s_view(values), hint, budget as nat)
                is None,
        },
    decreases budget, 1int,
{
    match parse_string_exec(v, i) {
        None => None,
        Some((key, j)) => {
            let is_values = chars_eq_lit(&key, "values");
            let is_hint = chars_eq_lit(&key, "encryption_hint");
            if is_values {
                if values.is_some() {
                    return None;
                }
                match expect_char_exec(v, j, ':') {
                    None => None,
                    Some(j2) => match parse_u32_array_exec(v, j2) {
                        None => None,
                        Some((xs, j3)) => attr_members_tail(v, j3, Some(xs), hint, budget),
                    },
                }
            } else if is_hint {
                if hint.is_some() {
                    return None;
                }
                match expect_char_exec(v, j, ':') {
                    None => None,
                    Some(j2) => match parse_hint_exec(v, j2) {
                        None => None,
                        Some((h, j3)) => attr_members_tail(v, j3, values, Some(h), budget),
                    },
                }
            } else {
                None
            }
        },
    }
}

/// Terminator handling of an attribute-parameters object.
fn attr_members_tail(
    v: &Vec<char>,
    j3: usize,
    values2: Option<Vec<u32>>,
    hint2: Option<EncryptionHint>,
    budget: usize,
) -> (r: Option<(PolicyAttributesParameters, usize)>)
    requires
        j3 <= v.len(),
    ensures
        ({
            let k = skip_ws(v@, j3 as int);
            match r {
                Some((ap, j)) => j3 <= j <= v.len() && (if k < v@.len() && v@[k] == '}' {
                    opt_u32s_view(values2) is Some && hint2 is Some && ap@ == (AttrParamsV {
                        values: opt_u32s_view(values2).unwrap(),
                        encryption_hint: hint2.unwrap(),
                    }) && j == k + 1
                } else if k < v@.len() && v@[k] == ',' {
                    budget > 0 && parse_attr_members(
                        v@,
                        k + 1,
                        opt_u32s_view(values2),
                        hint2,
                        (budget - 1) as nat,
                    ) == Some((ap@, j as int))
                } else {
                    false
                }),
                None => (if k < v@.len() && v@[k] == '}' {
                    !(opt_u32s_view(values2) is Some && hint2 is Some)
                } else if k < v@.len() && v@[k] == ',' {
                    budget == 0 || parse_attr_members(
                        v@,
                        k + 1,
                        opt_u32s_view(values2),
                        hint2,
                        (budget - 1) as nat,
                    ) is None
                } else {
                    true
                }),
            }
        }),
    decreases budget, 0int,
{
    let k = skip_ws_exec(v, j3);
    if k < v.len() && v[k] == '}' {
        match (values2, hint2) {
            (Some(xs), Some(h)) => Some(
                (PolicyAttributesParameters { values: xs, encryption_hint: h }, k + 1),
            ),
            _ => None,
        }
    } else if k < v.len() && v[k] == ',' {
        if budget == 0 {
            None
        } else {
            parse_attr_members_exec(v, k + 1, values2, hint2, budget - 1)
        }
    } else {
        None
    }
}

fn parse_attr_params_exec(v: &Vec<char>, i: usize) -> (r: Option<
    (PolicyAttributesParameters, usize),
>)
    requires
        i <= v.len(),
    ensures
        match r {
            Some((ap, j)) => parse_attr_params_v(v@, i as int) == Some((ap@, j as int)) && i <= j
                <= v.len(),
            None => parse_attr_params_v(v@, i as int) is None,
        },
{
    match expect_char_exec(v, i, '{') {
        None => None,
        Some(j) => parse_attr_members_exec(v, j, None, None, v.len()),
    }
}

/// The attribute named by the map key `axis::name`: split at the first
/// `::`.
pub open spec fn attr_of_text(t: Seq<char>) -> Option<AttrV> {
    match crate::expression::find2_from(t, ':', 0) {
        None => None,
        Some(k) => Some(AttrV { axis: t.subrange(0, k), name: t.subrange(k + 2, t.len() as int) }),
    }
}

pub(crate) fn attr_of_text_exec(t: &Vec<char>) -> (r: Option<Attribute>)
    ensures
        match r {
            Some(a) => attr_of_text(t@) == Some(a@),
            None => attr_of_text(t@) is None,
        },
{
    let mut cur: usize = 0;
    loop
        invariant
            0 <= cur,
            crate::expression::find2_from(t@, ':', 0) == crate::expression::find2_from(
                t@,
                ':',
                cur as int,
            ),
        ensures
            match crate::expression::find2_from(t@, ':', 0) {
                Some(p) => p == cur && cur + 2 <= t.len(),
                None => true,
            },
            crate::expression::find2_from(t@, ':', 0) is Some <==> cur < t.len() && cur + 1
                < t.len(),
        decreases t.len() - cur,
    {
        if !(cur < t.len() && cur + 1 < t.len()) {
            break;
        }
        if t[cur] == ':' && t[cur + 1] == ':' {
            break;
        }
        cur = cur + 1;
    }
    if cur < t.len() && cur + 1 < t.len() {
        let mut axis: Vec<char> = Vec::new();
        let mut i: usize = 0;
        while i < cur
            invariant
                0 <= i <= cur <= t.len(),
                axis@ =~= t@.subrange(0, i as int),
            decreases cur - i,
        {
            axis.push(t[i]);
            i = i + 1;
        }
        let mut name: Vec<char> = Vec::new();
        let mut i: usize = cur + 2;
        while i < t.len()
            invariant
                cur + 2 <= i <= t.len(),
                name@ =~= t@.subrange(cur + 2, i as int),
            decreases t.len() - i,
        {
            name.push(t[i]);
            i = i + 1;
        }
        proof {
            assert(t@.subrange(cur + 2, t@.len() as int) =~= name@);
        }
        Some(Attribute { axis: chars_to_string(&axis), name: chars_to_string(&name) })
    } else {
        None
    }
}

/// Entries of the axes map after the opening brace, first entry expected.
pub open spec fn parse_axes_items(s: Seq<char>, i: int, budget: nat) -> Option<
    (Seq<(Seq<char>, AxisParamsV)>, int),
>
    decreases budget,
{
    match parse_string(s, i) {
        None => None,
        Some((key, j)) => match expect_char(s, j, ':') {
            None => None,
            Some(j2) => match parse_axis_params_v(s, j2) {
                None => None,
                Some((ap, j3)) => {
                    let k = skip_ws(s, j3);
                    if k < s.len() && s[k] == '}' {
                        Some((seq![(key, ap)], k + 1))
                    } else if k < s.len() && s[k] == ',' {
                        if budget == 0 {
                            None
                        } else {
                            match parse_axes_items(s, k + 1, (budget - 1) as nat) {
                                None => None,
                                Some((xs, m)) => Some((seq![(key, ap)] + xs, m)),
                            }
                        }
                    } else {
                        None
                    }
                },
            },
        },
    }
}

/// The axes map at `i`.
pub open spec fn parse_axes_map(s: Seq<char>, i: int) -> Option<(Seq<(Seq<char>, AxisParamsV)>, int)> {
    match expect_char(s, i, '{') {
        None => None,
        Some(j) => {
            let k = skip_ws(s, j);
            if k < s.len() && s[k] == '}' {
                Some((Seq::empty(), k + 1))
            } else {
                parse_axes_items(s, j, s.len() as nat)
            }
        },
    }
}

/// View of an axes association list.
pub open spec fn axes_alist_view(v: Seq<(String, PolicyAxesParameters)>) -> Seq<
    (Seq<char>, AxisParamsV),
> {
    v.map_values(|e: (String, PolicyAxesParameters)| (e.0@, e.1@))
}

fn parse_axes_items_exec(v: &Vec<char>, i: usize, budget: usize) -> (r: Option<
    (Vec<(String, PolicyAxesParameters)>, usize),
>)
    requires
        i <= v.len(),
    ensures
        match r {
            Some((xs, j)) => parse_axes_items(v@, i as int, budget as nat) == Some(
                (axes_alist_view(xs@), j as int),
            ) && i <= j <= v.len(),
            None => parse_axes_items(v@, i as int, budget as nat) is None,
        },
    decreases budget,
{
    match parse_string_exec(v, i) {
        None => None,
        Some((key, j)) => match expect_char_exec(v, j, ':') {
            None => None,
            Some(j2) => match parse_axis_params_exec(v, j2) {
                None => None,
                Some((ap, j3)) => {
                    let k = skip_ws_exec(v, j3);
                    if k < v.len() && v[k] == '}' {
                        let mut out: Vec<(String, PolicyAxesParameters)> = Vec::new();
                        out.push((chars_to_string(&key), ap));
                        proof {
                            assert(axes_alist_view(out@) =~~= seq![(key@, ap@)]);
                        }
                        Some((out, k + 1))
                    } else if k < v.len() && v[k] == ',' {
                        if budget == 0 {
                            None
                        } else {
                            match parse_axes_items_exec(v, k + 1, budget - 1) {
                                None => None,
                                Some((xs, m)) => {
                                    let mut out: Vec<(String, PolicyAxesParameters)> = Vec::new();
                                    out.push((chars_to_string(&key), ap));
                                    let mut rest = xs;
                                    out.append(&mut rest);
                                    proof {
                                        assert(axes_alist_view(out@) =~~= seq![(key@, ap@)]
                                            + parse_axes_items(
                                            v@,
                                            k + 1,
                                            (budget - 1) as nat,
                                        ).unwrap().0);
                                    }
                                    Some((out, m))
                                },
                            }
                        }
                    } else {
                        None
                    }
                },
            },
        },
    }
}

fn parse_axes_map_exec(v: &Vec<char>, i: usize) -> (r: Option<
    (Vec<(String, PolicyAxesParameters)>, usize),
>)
    requires
        i <= v.len(),
    ensures
        match r {
            Some((xs, j)) => parse_axes_map(v@, i as int) == Some(
                (axes_alist_view(xs@), j as int),
            ) && i <= j <= v.len(),
            None => parse_axes_map(v@, i as int) is None,
        },
{
    match expect_char_exec(v, i, '{') {
        None => None,
        Some(j) => {
            let k = skip_ws_exec(v, j);
            if k < v.len() && v[k] == '}' {
                let out: Vec<(String, PolicyAxesParameters)> = Vec::new();
                proof {
                    assert(axes_alist_view(out@) =~~= Seq::<(Seq<char>, AxisParamsV)>::empty());
                }
                Some((out, k + 1))
            } else {
                parse_axes_items_exec(v, j, v.len())
            }
        },
    }
}

/// Entries of the current-schema attributes map after the opening brace.
pub open spec fn parse_attrs_items(s: Seq<char>, i: int, budget: nat) -> Option<
    (Seq<(AttrV, AttrParamsV)>, int),
>
    decreases budget,
{
    match parse_string(s, i) {
        None => None,
        Some((key, j)) => match attr_of_text(key) {
            None => None,
            Some(a) => match expect_char(s, j, ':') {
                None => None,
                Some(j2) => match parse_attr_params_v(s, j2) {
                    None => None,
                    Some((ap, j3)) => {
                        let k = skip_ws(s, j3);
                        if k < s.len() && s[k] == '}' {
                            Some((seq![(a, ap)], k + 1))
                        } else if k < s.len() && s[k] == ',' {
                            if budget == 0 {
                                None
                            } else {
                                match parse_attrs_items(s, k + 1, (budget - 1) as nat) {
                                    None => None,
                                    Some((xs, m)) => Some((seq![(a, ap)] + xs, m)),
                                }
                            }
                        } else {
                            None
                        }
                    },
                },
            },
        },
    }
}

/// The current-schema attributes map at `i`.
pub open spec fn parse_attrs_map(s: Seq<char>, i: int) -> Option<(Seq<(AttrV, AttrParamsV)>, int)> {
    match expect_char(s, i, '{') {
        None => None,
        Some(j) => {
            let k = skip_ws(s, j);
            if k < s.len() && s[k] == '}' {
                Some((Seq::empty(), k + 1))
            } else {
                parse_attrs_items(s, j, s.len() as nat)
            }
        },
    }
}

/// View of an attributes association list.
pub open spec fn attrs_alist_view(v: Seq<(Attribute, PolicyAttributesParameters)>) -> Seq<
    (AttrV, AttrParamsV),
> {
    v.map_values(|e: (Attribute, PolicyAttributesParameters)| (e.0@, e.1@))
}

fn parse_attrs_items_exec(v: &Vec<char>, i: usize, budget: usize) -> (r: Option<
    (Vec<(Attribute, PolicyAttributesParameters)>, usize),
>)
    requires
        i <= v.len(),
    ensures
        match r {
            Some((xs, j)) => parse_attrs_items(v@, i as int, budget as nat) == Some(
                (attrs_alist_view(xs@), j as int),
            ) && i <= j <= v.len(),
            None => parse_attrs_items(v@, i as int, budget as nat) is None,
        },
    decreases budget,
{
    match parse_string_exec(v, i) {
        None => None,
        Some((key, j)) => match attr_of_text_exec(&key) {
            None => None,
            Some(a) => match expect_char_exec(v, j, ':') {
                None => None,
                Some(j2) => match parse_attr_params_exec(v, j2) {
                    None => None,
                    Some((ap, j3)) => {
                        let k = skip_ws_exec(v, j3);
                        if k < v.len() && v[k] == '}' {
                            let mut out: Vec<(Attribute, PolicyAttributesParameters)> = Vec::new();
                            let ghost av = a@;
                            out.push((a, ap));
                            proof {
                                assert(attrs_alist_view(out@) =~~= seq![(av, ap@)]);
                            }
                            Some((out, k + 1))
                        } else if k < v.len() && v[k] == ',' {
                            if budget == 0 {
                                None
                            } else {
                                match parse_attrs_items_exec(v, k + 1, budget - 1) {
                                    None => None,
                                    Some((xs, m)) => {
                                        let mut out: Vec<(Attribute, PolicyAttributesParameters)> =
                                            Vec::new();
                                        let ghost av = a@;
                                        out.push((a, ap));
                                        let mut rest = xs;
                                        out.append(&mut rest);
                                        proof {
                                            assert(attrs_alist_view(out@) =~~= seq![(av, ap@)]
                                                + parse_attrs_items(
                                                v@,
                                                k + 1,
                                                (budget - 1) as nat,
                                            ).unwrap().0);
                                        }
                                        Some((out, m))
                                    },
                                }
                            }
                        } else {
                            None
                        }
                    },
                },
            },
        },
    }
}

fn parse_attrs_map_exec(v: &Vec<char>, i: usize) -> (r: Option<
    (Vec<(Attribute, PolicyAttributesParameters)>, usize),
>)
    requires
        i <= v.len(),
    ensures
        match r {
            Some((xs, j)) => parse_attrs_map(v@, i as int) == Some(
                (attrs_alist_view(xs@), j as int),
            ) && i <= j <= v.len(),
            None => parse_attrs_map(v@, i as int) is None,
        },
{
    match expect_char_exec(v, i, '{') {
        None => None,
        Some(j) => {
            let k = skip_ws_exec(v, j);
            if k < v.len() && v[k] == '}' {
                let out: Vec<(Attribute, PolicyAttributesParameters)> = Vec::new();
                proof {
                    assert(attrs_alist_view(out@) =~~= Seq::<(AttrV, AttrParamsV)>::empty());
                }
                Some((out, k + 1))
            } else {
                parse_attrs_items_exec(v, j, v.len())
            }
        },
    }
}

/// Entries of the legacy attributes map: bare slot arrays.
pub open spec fn parse_lattrs_items(s: Seq<char>, i: int, budget: nat) -> Option<
    (Seq<(AttrV, Seq<u32>)>, int),
>
    decreases budget,
{
    match parse_string(s, i) {
        None => None,
        Some((key, j)) => match attr_of_text(key) {
            None => None,
            Some(a) => match expect_char(s, j, ':') {
                None => None,
                Some(j2) => match parse_u32_array(s, j2) {
                    None => None,
                    Some((xs, j3)) => {
                        let k = skip_ws(s, j3);
                        if k < s.len() && s[k] == '}' {
                            Some((seq![(a, xs)], k + 1))
                        } else if k < s.len() && s[k] == ',' {
                            if budget == 0 {
                                None
                            } else {
                                match parse_lattrs_items(s, k + 1, (budget - 1) as nat) {
                                    None => None,
                                    Some((ys, m)) => Some((seq![(a, xs)] + ys, m)),
                                }
                            }
                        } else {
                            None
                        }
                    },
                },
            },
        },
    }
}

/// The legacy attributes map at `i`.
pub open spec fn parse_lattrs_map(s: Seq<char>, i: int) -> Option<(Seq<(AttrV, Seq<u32>)>, int)> {
    match expect_char(s, i, '{') {
        None => None,
        Some(j) => {
            let k = skip_ws(s, j);
            if k < s.len() && s[k] == '}' {
                Some((Seq::empty(), k + 1))
            } else {
                parse_lattrs_items(s, j, s.len() as nat)
            }
        },
    }
}

/// View of a legacy attributes association list.
pub open spec fn lattrs_alist_view(v: Seq<(Attribute, Vec<u32>)>) -> Seq<(AttrV, Seq<u32>)> {
    v.map_values(|e: (Attribute, Vec<u32>)| (e.0@, e.1@))
}

fn parse_lattrs_items_exec(v: &Vec<char>, i: usize, budget: usize) -> (r: Option<
    (Vec<(Attribute, Vec<u32>)>, usize),
>)
    requires
        i <= v.len(),
    ensures
        match r {
            Some((xs, j)) => parse_lattrs_items(v@, i as int, budget as nat) == Some(
                (lattrs_alist_view(xs@), j as int),
            ) && i <= j <= v.len(),
            None => parse_lattrs_items(v@, i as int, budget as nat) is None,
        },
    decreases budget,
{
    match parse_string_exec(v, i) {
        None => None,
        Some((key, j)) => match attr_of_text_exec(&key) {
            None => None,
            Some(a) => match expect_char_exec(v, j, ':') {
                None => None,
                Some(j2) => match parse_u32_array_exec(v, j2) {
                    None => None,
                    Some((xs, j3)) => {
                        let k = skip_ws_exec(v, j3);
                        if k < v.len() && v[k] == '}' {
                            let mut out: Vec<(Attribute, Vec<u32>)> = Vec::new();
                            let ghost av = a@;
                            let ghost xv = xs@;
                            out.push((a, xs));
                            proof {
                                assert(lattrs_alist_view(out@) =~~= seq![(av, xv)]);
                            }
                            Some((out, k + 1))
                        } else if k < v.len() && v[k] == ',' {
                            if budget == 0 {
                                None
                            } else {
                                match parse_lattrs_items_exec(v, k + 1, budget - 1) {
                                    None => None,
                                    Some((ys, m)) => {
                                        let mut out: Vec<(Attribute, Vec<u32>)> = Vec::new();
                                        let ghost av = a@;
                                        let ghost xv = xs@;
                                        out.push((a, xs));
                                        let mut rest = ys;
                                        out.append(&mut rest);
                                        proof {
                                            assert(lattrs_alist_view(out@) =~~= seq![(av, xv)]
                                                + parse_lattrs_items(
                                                v@,
                                                k + 1,
                                                (budget - 1) as nat,
                                            ).unwrap().0);
                                        }
                                        Some((out, m))
                                    },
                                }
                            }
                        } else {
                            None
                        }
                    },
                },
            },
        },
    }
}

fn parse_lattrs_map_exec(v: &Vec<char>, i: usize) -> (r: Option<
    (Vec<(Attribute, Vec<u32>)>, usize),
>)
    requires
        i <= v.len(),
    ensures
        match r {
            Some((xs, j)) => parse_lattrs_map(v@, i as int) == Some(
                (lattrs_alist_view(xs@), j as int),
            ) && i <= j <= v.len(),
            None => parse_lattrs_map(v@, i as int) is None,
        },
{
    match expect_char_exec(v, i, '{') {
        None => None,
        Some(j) => {
            let k = skip_ws_exec(v, j);
            if k < v.len() && v[k] == '}' {
                let out: Vec<(Attribute, Vec<u32>)> = Vec::new();
                proof {
                    assert(lattrs_alist_view(out@) =~~= Seq::<(AttrV, Seq<u32>)>::empty());
                }
                Some((out, k + 1))
            } else {
                parse_lattrs_items_exec(v, j, v.len())
            }
        },
    }
}


/// Members of a current-schema policy object, first member expected; the
/// accumulators hold the members already read.
pub open spec fn parse_policy_members(
    s: Seq<char>,
    i: int,
    ver: Option<()>,
    last: Option<u32>,
    max: Option<u32>,
    axes: Option<Seq<(Seq<char>, AxisParamsV)>>,
    attrs: Option<Seq<(AttrV, AttrParamsV)>>,
    budget: nat,
) -> Option<(PolicyV, int)>
    decreases budget,
{
    match parse_string(s, i) {
        None => None,
        Some((key, j)) => {
            let step: Option<
                (
                    Option<()>,
                    Option<u32>,
                    Option<u32>,
                    Option<Seq<(Seq<char>, AxisParamsV)>>,
                    Option<Seq<(AttrV, AttrParamsV)>>,
                    int,
                ),
            > = if key == "version"@ {
                if ver is Some {
                    None
                } else {
                    match expect_char(s, j, ':') {
                        None => None,
                        Some(j2) => match parse_string(s, j2) {
                            None => None,
                            Some((t, j3)) => if t == "V1"@ {
                                Some((Some(()), last, max, axes, attrs, j3))
                            } else {
                                None
                            },
                        },
                    }
                }
            } else if key == "last_attribute_value"@ {
                if last is Some {
                    None
                } else {
                    match expect_char(s, j, ':') {
                        None => None,
                        Some(j2) => match parse_u32v(s, j2) {
                            None => None,
                            Some((n, j3)) => Some((ver, Some(n), max, axes, attrs, j3)),
                        },
                    }
                }
            } else if key == "max_attribute_creations"@ {
                if max is Some {
                    None
                } else {
                    match expect_char(s, j, ':') {
                        None => None,
                        Some(j2) => match parse_u32v(s, j2) {
                            None => None,
                            Some((n, j3)) => Some((ver, last, Some(n), axes, attrs, j3)),
                        },
                    }
                }
            } else if key == "axes"@ {
                if axes is Some {
                    None
                } else {
                    match expect_char(s, j, ':') {
                        None => None,
                        Some(j2) => match parse_axes_map(s, j2) {
                            None => None,
                            Some((xs, j3)) => Some((ver, last, max, Some(xs), attrs, j3)),
                        },
                    }
                }
            } else if key == "attributes"@ {
                if attrs is Some {
                    None
                } else {
                    match expect_char(s, j, ':') {
                        None => None,
                        Some(j2) => match parse_attrs_map(s, j2) {
                            None => None,
                            Some((xs, j3)) => Some((ver, last, max, axes, Some(xs), j3)),
                        },
                    }
                }
            } else {
                None
            };
            match step {
                None => None,
                Some((ver2, last2, max2, axes2, attrs2, j3)) => {
                    let k = skip_ws(s, j3);
                    if k < s.len() && s[k] == '}' {
                        if ver2 is Some && last2 is Some && max2 is Some && axes2 is Some && attrs2
                            is Some {
                            Some(
                                (
                                    PolicyV {
                                        version: PolicyVersion::V1,
                                        last: last2.unwrap(),
                                        max: max2.unwrap(),
                                        axes: axes2.unwrap(),
                                        attributes: attrs2.unwrap(),
                                    },
                                    k + 1,
                                ),
                            )
                        } else {
                            None
                        }
                    } else if k < s.len() && s[k] == ',' {
                        if budget == 0 {
                            None
                        } else {
                            parse_policy_members(
                                s,
                                k + 1,
                                ver2,
                                last2,
                                max2,
                                axes2,
                                attrs2,
                                (budget - 1) as nat,
                            )
                        }
                    } else {
                        None
                    }
                },
            }
        },
    }
}

/// A whole current-schema policy text: one policy object and nothing but
/// whitespace after it.
pub open spec fn parse_policy_text(s: Seq<char>) -> Option<PolicyV> {
    match expect_char(s, 0, '{') {
        None => None,
        Some(j) => match parse_policy_members(s, j, None, None, None, None, None, s.len() as nat) {
            None => None,
            Some((p, m)) => if skip_ws(s, m) == s.len() {
                Some(p)
            } else {
                None
            },
        },
    }
}

/// View of an optional axes accumulator.
pub open spec fn opt_axes_view(o: Option<Vec<(String, PolicyAxesParameters)>>) -> Option<
    Seq<(Seq<char>, AxisParamsV)>,
> {
    match o {
        None => None,
        Some(xs) => Some(axes_alist_view(xs@)),
    }
}

/// View of an optional attributes accumulator.
pub open spec fn opt_attrs_view(o: Option<Vec<(Attribute, PolicyAttributesParameters)>>) -> Option<
    Seq<(AttrV, AttrParamsV)>,
> {
    match o {
        None => None,
        Some(xs) => Some(attrs_alist_view(xs@)),
    }
}

fn parse_policy_members_exec(
    v: &Vec<char>,
    i: usize,
    ver: Option<()>,
    last: Option<u32>,
    max: Option<u32>,
    axes: Option<Vec<(String, PolicyAxesParameters)>>,
    attrs: Option<Vec<(Attribute, PolicyAttributesParameters)>>,
    budget: usize,
) -> (r: Option<(Policy, usize)>)
    requires
        i <= v.len(),
    ensures
        match r {
            Some((p, j)) => parse_policy_members(
                v@,
                i as int,
                ver,
                last,
                max,
                opt_axes_view(axes),
                opt_attrs_view(attrs),
                budget as nat,
            ) == Some((p@, j as int)) && i <= j <= v.len(),
            None => parse_policy_members(
                v@,
                i as int,
                ver,
                last,
                max,
                opt_axes_view(axes),
                opt_attrs_view(attrs),
                budget as nat,
            ) is None,
        },
    decreases budget, 1int,
{
    match parse_string_exec(v, i) {
        None => None,
        Some((key, j)) => {
            if chars_eq_lit(&key, "version") {
                if ver.is_some() {
                    return None;
                }
                match expect_char_exec(v, j, ':') {
                    None => None,
                    Some(j2) => match parse_string_exec(v, j2) {
                        None => None,
                        Some((t, j3)) => {
                            if chars_eq_lit(&t, "V1") {
                                policy_members_tail(v, j3, Some(()), last, max, axes, attrs, budget)
                            } else {
                                None
                            }
                        },
                    },
                }
            } else if chars_eq_lit(&key, "last_attribute_value") {
                if last.is_some() {
                    return None;
                }
                match expect_char_exec(v, j, ':') {
                    None => None,
                    Some(j2) => match parse_u32v_exec(v, j2) {
                        None => None,
                        Some((n, j3)) => policy_members_tail(
                            v,
                            j3,
                            ver,
                            Some(n),
                            max,
                            axes,
                            attrs,
                            budget,
                        ),
                    },
                }
            } else if chars_eq_lit(&key, "max_attribute_creations") {
                if max.is_some() {
                    return None;
                }
                match expect_char_exec(v, j, ':') {
                    None => None,
                    Some(j2) => match parse_u32v_exec(v, j2) {
                        None => None,
                        Some((n, j3)) => policy_members_tail(
                            v,
                            j3,
                            ver,
                            last,
                            Some(n),
                            axes,
                            attrs,
                            budget,
                        ),
                    },
                }
            } else if chars_eq_lit(&key, "axes") {
                if axes.is_some() {
                    return None;
                }
                match expect_char_exec(v, j, ':') {
                    None => None,
                    Some(j2) => match parse_axes_map_exec(v, j2) {
                        None => None,
                        Some((xs, j3)) => policy_members_tail(
                            v,
                            j3,
                            ver,
                            last,
                            max,
                            Some(xs),
                            attrs,
                            budget,
                        ),
                    },
                }
            } else if chars_eq_lit(&key, "attributes") {
                if attrs.is_some() {
                    return None;
                }
                match expect_char_exec(v, j, ':') {
                    None => None,
                    Some(j2) => match parse_attrs_map_exec(v, j2) {
                        None => None,
                        Some((xs, j3)) => policy_members_tail(
                            v,
                            j3,
                            ver,
                            last,
                            max,
                            axes,
                            Some(xs),
                            budget,
                        ),
                    },
                }
            } else {
                None
            }
        },
    }
}

/// Terminator handling of a policy object.
fn policy_members_tail(
    v: &Vec<char>,
    j3: usize,
    ver2: Option<()>,
    last2: Option<u32>,
    max2: Option<u32>,
    axes2: Option<Vec<(String, PolicyAxesParameters)>>,
    attrs2: Option<Vec<(Attribute, PolicyAttributesParameters)>>,
    budget: usize,
) -> (r: Option<(Policy, usize)>)
    requires
        j3 <= v.len(),
    ensures
        ({
            let k = skip_ws(v@, j3 as int);
            match r {
                Some((p, j)) => j3 <= j <= v.len() && (if k < v@.len() && v@[k] == '}' {
                    ver2 is Some && last2 is Some && max2 is Some && opt_axes_view(axes2) is Some
                        && opt_attrs_view(attrs2) is Some && p@ == (PolicyV {
                        version: PolicyVersion::V1,
                        last: last2.unwrap(),
                        max: max2.unwrap(),
                        axes: opt_axes_view(axes2).unwrap(),
                        attributes: opt_attrs_view(attrs2).unwrap(),
                    }) && j == k + 1
                } else if k < v@.len() && v@[k] == ',' {
                    budget > 0 && parse_policy_members(
                        v@,
                        k + 1,
                        ver2,
                        last2,
                        max2,
                        opt_axes_view(axes2),
                        opt_attrs_view(attrs2),
                        (budget - 1) as nat,
                    ) == Some((p@, j as int))
                } else {
                    false
                }),
                None => (if k < v@.len() && v@[k] == '}' {
                    !(ver2 is Some && last2 is Some && max2 is Some && opt_axes_view(axes2) is Some
                        && opt_attrs_view(attrs2) is Some)
                } else if k < v@.len() && v@[k] == ',' {
                    budget == 0 || parse_policy_members(
                        v@,
                        k + 1,
                        ver2,
                        last2,
                        max2,
                        opt_axes_view(axes2),
                        opt_attrs_view(attrs2),
                        (budget - 1) as nat,
                    ) is None
                } else {
                    true
                }),
            }
        }),
    decreases budget, 0int,
{
    let k = skip_ws_exec(v, j3);
    if k < v.len() && v[k] == '}' {
        match (ver2, last2, max2, axes2, attrs2) {
            (Some(_), Some(l), Some(m), Some(xs), Some(ats)) => Some(
                (
                    Policy {
                        version: PolicyVersion::V1,
                        last_attribute_value: l,
                        max_attribute_creations: m,
                        axes: xs,
                        attributes: ats,
                    },
                    k + 1,
                ),
            ),
            _ => None,
        }
    } else if k < v.len() && v[k] == ',' {
        if budget == 0 {
            None
        } else {
            parse_policy_members_exec(v, k + 1, ver2, last2, max2, axes2, attrs2, budget - 1)
        }
    } else {
        None
    }
}

fn parse_policy_exec(v: &Vec<char>) -> (r: Option<Policy>)
    ensures
        match r {
            Some(p) => parse_policy_text(v@) == Some(p@),
            None => parse_policy_text(v@) is None,
        },
{
    match expect_char_exec(v, 0, '{') {
        None => None,
        Some(j) => match parse_policy_members_exec(v, j, None, None, None, None, None, v.len()) {
            None => None,
            Some((p, m)) => {
                let k = skip_ws_exec(v, m);
                if k == v.len() {
                    Some(p)
                } else {
                    None
                }
            },
        },
    }
}

/// Members of a legacy-schema policy object, first member expected.
pub open spec fn parse_legacy_members(
    s: Seq<char>,
    i: int,
    last: Option<u32>,
    max: Option<u32>,
    axes: Option<Seq<(Seq<char>, AxisParamsV)>>,
    attrs: Option<Seq<(AttrV, Seq<u32>)>>,
    budget: nat,
) -> Option<(LegacyPolicyV, int)>
    decreases budget,
{
    match parse_string(s, i) {
        None => None,
        Some((key, j)) => {
            let step: Option<
                (
                    Option<u32>,
                    Option<u32>,
                    Option<Seq<(Seq<char>, AxisParamsV)>>,
                    Option<Seq<(AttrV, Seq<u32>)>>,
                    int,
                ),
            > = if key == "last_attribute_value"@ {
                if last is Some {
                    None
                } else {
                    match expect_char(s, j, ':') {
                        None => None,
                        Some(j2) => match parse_u32v(s, j2) {
                            None => None,
                            Some((n, j3)) => Some((Some(n), max, axes, attrs, j3)),
                        },
                    }
                }
            } else if key == "max_attribute_creations"@ {
                if max is Some {
                    None
                } else {
                    match expect_char(s, j, ':') {
                        None => None,
                        Some(j2) => match parse_u32v(s, j2) {
                            None => None,
                            Some((n, j3)) => Some((last, Some(n), axes, attrs, j3)),
                        },
                    }
                }
            } else if key == "axes"@ {
                if axes is Some {
                    None
                } else {
                    match expect_char(s, j, ':') {
                        None => None,
                        Some(j2) => match parse_axes_map(s, j2) {
                            None => None,
                            Some((xs, j3)) => Some((last, max, Some(xs), attrs, j3)),
                        },
                    }
                }
            } else if key == "attributes"@ {
                if attrs is Some {
                    None
                } else {
                    match expect_char(s, j, ':') {
                        None => None,
                        Some(j2) => match parse_lattrs_map(s, j2) {
                            None => None,
                            Some((xs, j3)) => Some((last, max, axes, Some(xs), j3)),
                        },
                    }
                }
            } else {
                None
            };
            match step {
                None => None,
                Some((last2, max2, axes2, attrs2, j3)) => {
                    let k = skip_ws(s, j3);
                    if k < s.len() && s[k] == '}' {
                        if last2 is Some && max2 is Some && axes2 is Some && attrs2 is Some {
                            Some(
                                (
                                    LegacyPolicyV {
                                        last: last2.unwrap(),
                                        max: max2.unwrap(),
                                        axes: axes2.unwrap(),
                                        attributes: attrs2.unwrap(),
                                    },
                                    k + 1,
                                ),
                            )
                        } else {
                            None
                        }
                    } else if k < s.len() && s[k] == ',' {
                        if budget == 0 {
                            None
                        } else {
                            parse_legacy_members(
                                s,
                                k + 1,
                                last2,
                                max2,
                                axes2,
                                attrs2,
                                (budget - 1) as nat,
                            )
                        }
                    } else {
                        None
                    }
                },
            }
        },
    }
}

/// A whole legacy-schema policy text.
pub open spec fn parse_legacy_text(s: Seq<char>) -> Option<LegacyPolicyV> {
    match expect_char(s, 0, '{') {
        None => None,
        Some(j) => match parse_legacy_members(s, j, None, None, None, None, s.len() as nat) {
            None => None,
            Some((p, m)) => if skip_ws(s, m) == s.len() {
                Some(p)
            } else {
                None
            },
        },
    }
}

/// View of an optional legacy attributes accumulator.
pub open spec fn opt_lattrs_view(o: Option<Vec<(Attribute, Vec<u32>)>>) -> Option<
    Seq<(AttrV, Seq<u32>)>,
> {
    match o {
        None => None,
        Some(xs) => Some(lattrs_alist_view(xs@)),
    }
}

fn parse_legacy_members_exec(
    v: &Vec<char>,
    i: usize,
    last: Option<u32>,
    max: Option<u32>,
    axes: Option<Vec<(String, PolicyAxesParameters)>>,
    attrs: Option<Vec<(Attribute, Vec<u32>)>>,
    budget: usize,
) -> (r: Option<(LegacyPolicy, usize)>)
    requires
        i <= v.len(),
    ensures
        match r {
            Some((p, j)) => parse_legacy_members(
                v@,
                i as int,
                last,
                max,
                opt_axes_view(axes),
                opt_lattrs_view(attrs),
                budget as nat,
            ) == Some((p@, j as int)) && i <= j <= v.len(),
            None => parse_legacy_members(
                v@,
                i as int,
                last,
                max,
                opt_axes_view(axes),
                opt_lattrs_view(attrs),
                budget as nat,
            ) is None,
        },
    decreases budget, 1int,
{
    match parse_string_exec(v, i) {
        None => None,
        Some((key, j)) => {
            if chars_eq_lit(&key, "last_attribute_value") {
                if last.is_some() {
                    return None;
                }
                match expect_char_exec(v, j, ':') {
                    None => None,
                    Some(j2) => match parse_u32v_exec(v, j2) {
                        None => None,
                        Some((n, j3)) => legacy_members_tail(
                            v,
                            j3,
                            Some(n),
                            max,
                            axes,
                            attrs,
                            budget,
                        ),
                    },
                }
            } else if chars_eq_lit(&key, "max_attribute_creations") {
                if max.is_some() {
                    return None;
                }
                match expect_char_exec(v, j, ':') {
                    None => None,
                    Some(j2) => match parse_u32v_exec(v, j2) {
                        None => None,
                        Some((n, j3)) => legacy_members_tail(
                            v,
                            j3,
                            last,
                            Some(n),
                            axes,
                            attrs,
                            budget,
                        ),
                    },
                }
            } else if chars_eq_lit(&key, "axes") {
                if axes.is_some() {
                    return None;
                }
                match expect_char_exec(v, j, ':') {
                    None => None,
                    Some(j2) => match parse_axes_map_exec(v, j2) {
                        None => None,
                        Some((xs, j3)) => legacy_members_tail(
                            v,
                            j3,
                            last,
                            max,
                            Some(xs),
                            attrs,
                            budget,
                        ),
                    },
                }
            } else if chars_eq_lit(&key, "attributes") {
                if attrs.is_some() {
                    return None;
                }
                match expect_char_exec(v, j, ':') {
                    None => None,
                    Some(j2) => match parse_lattrs_map_exec(v, j2) {
                        None => None,
                        Some((xs, j3)) => legacy_members_tail(
                            v,
                            j3,
                            last,
                            max,
                            axes,
                            Some(xs),
                            budget,
                        ),
                    },
                }
            } else {
                None
            }
        },
    }
}

/// Terminator handling of a legacy policy object.
fn legacy_members_tail(
    v: &Vec<char>,
    j3: usize,
    last2: Option<u32>,
    max2: Option<u32>,
    axes2: Option<Vec<(String, PolicyAxesParameters)>>,
    attrs2: Option<Vec<(Attribute, Vec<u32>)>>,
    budget: usize,
) -> (r: Option<(LegacyPolicy, usize)>)
    requires
        j3 <= v.len(),
    ensures
        ({
            let k = skip_ws(v@, j3 as int);
            match r {
                Some((p, j)) => j3 <= j <= v.len() && (if k < v@.len() && v@[k] == '}' {
                    last2 is Some && max2 is Some && opt_axes_view(axes2) is Some
                        && opt_lattrs_view(attrs2) is Some && p@ == (LegacyPolicyV {
                        last: last2.unwrap(),
                        max: max2.unwrap(),
                        axes: opt_axes_view(axes2).unwrap(),
                        attributes: opt_lattrs_view(attrs2).unwrap(),
                    }) && j == k + 1
                } else if k < v@.len() && v@[k] == ',' {
                    budget > 0 && parse_legacy_members(
                        v@,
                        k + 1,
                        last2,
                        max2,
                        opt_axes_view(axes2),
                        opt_lattrs_view(attrs2),
                        (budget - 1) as nat,
                    ) == Some((p@, j as int))
                } else {
                    false
                }),
                None => (if k < v@.len() && v@[k] == '}' {
                    !(last2 is Some && max2 is Some && opt_axes_view(axes2) is Some
                        && opt_lattrs_view(attrs2) is Some)
                } else if k < v@.len() && v@[k] == ',' {
                    budget == 0 || parse_legacy_members(
                        v@,
                        k + 1,
                        last2,
                        max2,
                        opt_axes_view(axes2),
                        opt_lattrs_view(attrs2),
                        (budget - 1) as nat,
                    ) is None
                } else {
                    true
                }),
            }
        }),
    decreases budget, 0int,
{
    let k = skip_ws_exec(v, j3);
    if k < v.len() && v[k] == '}' {
        match (last2, max2, axes2, attrs2) {
            (Some(l), Some(m), Some(xs), Some(ats)) => Some(
                (
                    LegacyPolicy {
                        last_attribute_value: l,
                        max_attribute_creations: m,
                        axes: xs,
                        attributes: ats,
                    },
                    k + 1,
                ),
            ),
            _ => None,
        }
    } else if k < v.len() && v[k] == ',' {
        if budget == 0 {
            None
        } else {
            parse_legacy_members_exec(v, k + 1, last2, max2, axes2, attrs2, budget - 1)
        }
    } else {
        None
    }
}

fn parse_legacy_exec(v: &Vec<char>) -> (r: Option<LegacyPolicy>)
    ensures
        match r {
            Some(p) => parse_legacy_text(v@) == Some(p@),
            None => parse_legacy_text(v@) is None,
        },
{
    match expect_char_exec(v, 0, '{') {
        None => None,
        Some(j) => match parse_legacy_members_exec(v, j, None, None, None, None, v.len()) {
            None => None,
            Some((p, m)) => {
                let k = skip_ws_exec(v, m);
                if k == v.len() {
                    Some(p)
                } else {
                    None
                }
            },
        },
    }
}

// ------------------------------------------------------------------
// The versioned decoder with legacy migration.
// ------------------------------------------------------------------

/// Mechanical upgrade of a legacy policy: every hint defaults to `Classic`
/// and the current version is stamped.
pub open spec fn upgrade_legacy(l: LegacyPolicyV) -> PolicyV {
    PolicyV {
        version: PolicyVersion::V1,
        last: l.last,
        max: l.max,
        axes: l.axes,
        attributes: l.attributes.map_values(
            |e: (AttrV, Seq<u32>)|
                (e.0, AttrParamsV { values: e.1, encryption_hint: EncryptionHint::Classic }),
        ),
    }
}

/// Outcome of decoding a policy blob: the current schema is authoritative,
/// the legacy schema is a fallback that is upgraded mechanically, and a
/// blob neither schema accepts is a deserialization error.
pub open spec fn decode_policy_outcome(bytes: Seq<u8>) -> Option<PolicyV> {
    if !vstd::utf8::valid_utf8(bytes) {
        None
    } else {
        let s = vstd::utf8::decode_utf8(bytes);
        match parse_policy_text(s) {
            Some(p) => Some(p),
            None => match parse_legacy_text(s) {
                Some(l) => Some(upgrade_legacy(l)),
                None => None,
            },
        }
    }
}

/// Relies on std `str::from_utf8`: checks that `bytes` is valid UTF-8 and
/// reinterprets it as text.
#[verifier::external_body]
fn bytes_to_str(bytes: &[u8]) -> (r: Option<&str>)
    ensures
        match r {
            Some(s) => vstd::utf8::valid_utf8(bytes@) && s.spec_bytes() == bytes@,
            None => !vstd::utf8::valid_utf8(bytes@),
        },
{
    std::str::from_utf8(bytes).ok()
}

impl LegacyPolicy {
    /// Mechanical upgrade to the current schema: every hint defaults to
    /// `Classic` and the current version is stamped.
    pub fn upgrade(self) -> (r: Policy)
        ensures
            r@ == upgrade_legacy(self@),
    {
        let ghost lv = self@;
        let old_attrs = self.attributes;
        let ghost restv = lattrs_alist_view(old_attrs@);
        let mut out: Vec<(Attribute, PolicyAttributesParameters)> = Vec::new();
        let mut k: usize = 0;
        while k < old_attrs.len()
            invariant
                0 <= k <= old_attrs.len(),
                restv == lattrs_alist_view(old_attrs@),
                restv.len() == old_attrs@.len(),
                forall|j: int|
                    0 <= j < old_attrs@.len() ==> #[trigger] restv[j] == (
                        old_attrs@[j].0@,
                        old_attrs@[j].1@,
                    ),
                out@.len() == k,
                forall|j: int|
                    0 <= j < k ==> #[trigger] out@[j].0@ == restv[j].0 && out@[j].1@
                        == (AttrParamsV {
                        values: restv[j].1,
                        encryption_hint: EncryptionHint::Classic,
                    }),
            decreases old_attrs.len() - k,
        {
            let a = Attribute::new(old_attrs[k].0.axis.as_str(), old_attrs[k].0.name.as_str());
            let vals = crate::policy::clone_u32_vec(&old_attrs[k].1);
            out.push(
                (a, PolicyAttributesParameters {
                    values: vals,
                    encryption_hint: EncryptionHint::Classic,
                }),
            );
            k = k + 1;
        }
        let r = Policy {
            version: PolicyVersion::V1,
            last_attribute_value: self.last_attribute_value,
            max_attribute_creations: self.max_attribute_creations,
            axes: self.axes,
            attributes: out,
        };
        proof {
            assert(r@.attributes =~~= upgrade_legacy(lv).attributes);
            assert(r@.axes =~~= upgrade_legacy(lv).axes);
            assert(r@ == upgrade_legacy(lv));
        }
        r
    }
}

impl Policy {
    /// Decodes a policy blob: the current schema is attempted first; on
    /// failure the legacy schema (no version tag, no hints) is attempted
    /// and, if it succeeds, upgraded by defaulting every hint to `Classic`.
    /// When both decodes fail, a `DeserializationError` is returned; the
    /// current schema is the authoritative one for diagnostics.
    pub fn parse_and_convert(bytes: &[u8]) -> (r: Result<Policy, Error>)
        ensures
            match decode_policy_outcome(bytes@) {
                Some(p) => r matches Ok(q) && q@ == p,
                None => r matches Err(e) && e is DeserializationError,
            },
    {
        match bytes_to_str(bytes) {
            None => Err(
                Error::DeserializationError("the policy blob is not valid UTF-8".to_owned()),
            ),
            Some(text) => {
                proof {
                    vstd::utf8::encode_utf8_decode_utf8(text@);
                }
                let chars = str_chars(text);
                match parse_policy_exec(&chars) {
                    Some(p) => Ok(p),
                    None => match parse_legacy_exec(&chars) {
                        Some(l) => Ok(l.upgrade()),
                        None => Err(
                            Error::DeserializationError(
                                "the policy blob fits neither the current nor the legacy schema".to_owned(),
                            ),
                        ),
                    },
                }
            },
        }
    }
}


/// An access policy value in the structured encoding: the bare tag `All`,
/// or an object with a single `Attr`, `And` or `Or` member.
pub open spec fn parse_ap_value(s: Seq<char>, i: int, budget: nat) -> Option<(ApV, int)>
    decreases budget,
{
    let j = skip_ws(s, i);
    if j < s.len() && s[j] == '"' {
        match parse_string(s, i) {
            None => None,
            Some((t, j2)) => if t == "All"@ {
                Some((ApV::All, j2))
            } else {
                None
            },
        }
    } else {
        match expect_char(s, i, '{') {
            None => None,
            Some(j2) => match parse_string(s, j2) {
                None => None,
                Some((key, j3)) => match expect_char(s, j3, ':') {
                    None => None,
                    Some(j4) => if key == "Attr"@ {
                        match parse_string(s, j4) {
                            None => None,
                            Some((t, j5)) => match attr_of_text(t) {
                                None => None,
                                Some(a) => match expect_char(s, j5, '}') {
                                    None => None,
                                    Some(j6) => Some((ApV::Attr(a), j6)),
                                },
                            },
                        }
                    } else if key == "And"@ || key == "Or"@ {
                        if budget == 0 {
                            None
                        } else {
                            match expect_char(s, j4, '[') {
                                None => None,
                                Some(j5) => match parse_ap_value(s, j5, (budget - 1) as nat) {
                                    None => None,
                                    Some((l, j6)) => match expect_char(s, j6, ',') {
                                        None => None,
                                        Some(j7) => match parse_ap_value(
                                            s,
                                            j7,
                                            (budget - 1) as nat,
                                        ) {
                                            None => None,
                                            Some((r, j8)) => match expect_char(s, j8, ']') {
                                                None => None,
                                                Some(j9) => match expect_char(s, j9, '}') {
                                                    None => None,
                                                    Some(j10) => Some(
                                                        (
                                                            if key == "And"@ {
                                                                ApV::And(Box::new(l), Box::new(r))
                                                            } else {
                                                                ApV::Or(Box::new(l), Box::new(r))
                                                            },
                                                            j10,
                                                        ),
                                                    ),
                                                },
                                            },
                                        },
                                    },
                                },
                            }
                        }
                    } else {
                        None
                    },
                },
            },
        }
    }
}

/// A whole access-policy text: one value and nothing but whitespace after.
pub open spec fn parse_ap_text(s: Seq<char>) -> Option<ApV> {
    match parse_ap_value(s, 0, s.len() as nat) {
        None => None,
        Some((v, m)) => if skip_ws(s, m) == s.len() {
            Some(v)
        } else {
            None
        },
    }
}

fn parse_ap_value_exec(v: &Vec<char>, i: usize, budget: usize) -> (r: Option<(AccessPolicy, usize)>)
    requires
        i <= v.len(),
    ensures
        match r {
            Some((ap, j)) => parse_ap_value(v@, i as int, budget as nat) == Some(
                (ap@, j as int),
            ) && i <= j <= v.len(),
            None => parse_ap_value(v@, i as int, budget as nat) is None,
        },
    decreases budget,
{
    let j = skip_ws_exec(v, i);
    if j < v.len() && v[j] == '"' {
        match parse_string_exec(v, i) {
            None => None,
            Some((t, j2)) => {
                if chars_eq_lit(&t, "All") {
                    Some((AccessPolicy::All, j2))
                } else {
                    None
                }
            },
        }
    } else {
        match expect_char_exec(v, i, '{') {
            None => None,
            Some(j2) => match parse_string_exec(v, j2) {
                None => None,
                Some((key, j3)) => match expect_char_exec(v, j3, ':') {
                    None => None,
                    Some(j4) => {
                        let is_attr = chars_eq_lit(&key, "Attr");
                        let is_and = chars_eq_lit(&key, "And");
                        let is_or = chars_eq_lit(&key, "Or");
                        proof {
                            reveal_strlit("Attr");
                            reveal_strlit("And");
                            reveal_strlit("Or");
                            assert("Attr"@.len() == 4 && "And"@.len() == 3 && "Or"@.len() == 2);
                        }
                        if is_attr {
                            match parse_string_exec(v, j4) {
                                None => None,
                                Some((t, j5)) => match attr_of_text_exec(&t) {
                                    None => None,
                                    Some(a) => match expect_char_exec(v, j5, '}') {
                                        None => None,
                                        Some(j6) => Some((AccessPolicy::Attr(a), j6)),
                                    },
                                },
                            }
                        } else if is_and || is_or {
                            if budget == 0 {
                                return None;
                            }
                            match expect_char_exec(v, j4, '[') {
                                None => None,
                                Some(j5) => match parse_ap_value_exec(v, j5, budget - 1) {
                                    None => None,
                                    Some((l, j6)) => match expect_char_exec(v, j6, ',') {
                                        None => None,
                                        Some(j7) => match parse_ap_value_exec(v, j7, budget - 1) {
                                            None => None,
                                            Some((rr, j8)) => match expect_char_exec(v, j8, ']') {
                                                None => None,
                                                Some(j9) => match expect_char_exec(v, j9, '}') {
                                                    None => None,
                                                    Some(j10) => {
                                                        if is_and {
                                                            Some(
                                                                (
                                                                    AccessPolicy::And(
                                                                        Box::new(l),
                                                                        Box::new(rr),
                                                                    ),
                                                                    j10,
                                                                ),
                                                            )
                                                        } else {
                                                            Some(
                                                                (
                                                                    AccessPolicy::Or(
                                                                        Box::new(l),
                                                                        Box::new(rr),
                                                                    ),
                                                                    j10,
                                                                ),
                                                            )
                                                        }
                                                    },
                                                },
                                            },
                                        },
                                    },
                                },
                            }
                        } else {
                            None
                        }
                    },
                },
            },
        }
    }
}

impl AccessPolicy {
    /// Decodes an access policy from its structured textual encoding.
    ///
    /// Fails with `DeserializationError` on any text the encoding does not
    /// produce.
    pub fn from_json_string(text: &str) -> (r: Result<AccessPolicy, Error>)
        ensures
            match parse_ap_text(text@) {
                Some(v) => r matches Ok(ap) && ap@ == v,
                None => r matches Err(e) && e is DeserializationError,
            },
    {
        let chars = str_chars(text);
        match parse_ap_value_exec(&chars, 0, chars.len()) {
            None => Err(
                Error::DeserializationError(
                    "the text does not encode an access policy".to_owned(),
                ),
            ),
            Some((ap, m)) => {
                let k = skip_ws_exec(&chars, m);
                if k == chars.len() {
                    Ok(ap)
                } else {
                    Err(
                        Error::DeserializationError(
                            "unexpected text after the access policy".to_owned(),
                        ),
                    )
                }
            },
        }
    }
}


// ------------------------------------------------------------------
// The structured encoding of access policies round-trips.
// ------------------------------------------------------------------

/// An axis text the `axis::name` key splits back at the right place: no
/// `::` inside it and no `:` at its end.
pub open spec fn axis_text_ok(s: Seq<char>) -> bool {
    &&& (forall|j: int|
        #![trigger s[j]]
        0 <= j < s.len() - 1 ==> !(s[j] == ':' && s[j + 1] == ':'))
    &&& (s.len() > 0 ==> s[s.len() - 1] != ':')
}

/// Every literal of the expression carries an axis text that splits back.
pub open spec fn ap_keys_ok(ap: ApV) -> bool
    decreases ap,
{
    match ap {
        ApV::Attr(a) => axis_text_ok(a.axis),
        ApV::And(l, r) => ap_keys_ok(*l) && ap_keys_ok(*r),
        ApV::Or(l, r) => ap_keys_ok(*l) && ap_keys_ok(*r),
        ApV::All => true,
    }
}

/// The `axis::name` key of an attribute splits back into the attribute.
proof fn lemma_attr_of_text_of_attr(a: AttrV)
    requires
        axis_text_ok(a.axis),
    ensures
        attr_of_text(attr_text(a)) == Some(a),
{
    let t = attr_text(a);
    let n = a.axis.len() as int;
    reveal_strlit("::");
    assert("::"@ =~= seq![':', ':']);
    assert forall|j: int| 0 <= j < t.len() implies #[trigger] t[j] == (if j < n {
        a.axis[j]
    } else if j < n + 2 {
        ':'
    } else {
        a.name[j - n - 2]
    }) by {}
    assert forall|j: int| 0 <= j < n implies !(#[trigger] t[j] == ':' && t[j + 1] == ':') by {
        if j + 1 < n {
            assert(t[j] == a.axis[j] && t[j + 1] == a.axis[j + 1]);
        } else {
            assert(j == n - 1);
            assert(t[j] == a.axis[n - 1]);
        }
    }
    crate::expression::lemma_find2_first(t, ':', 0, n);
    assert(t.subrange(0, n) =~= a.axis);
    assert(t.subrange(n + 2, t.len() as int) =~= a.name);
}

/// Reading an access-policy value over the encoding of a literal.
#[verifier::spinoff_prover]
#[verifier::rlimit(100)]
proof fn lemma_parse_ap_of_enc_attr(s: Seq<char>, i: int, a: AttrV, budget: nat)
    requires
        axis_text_ok(a.axis),
        0 <= i,
        i + enc_ap(ApV::Attr(a)).len() <= s.len(),
        s.subrange(i, i + enc_ap(ApV::Attr(a)).len()) == enc_ap(ApV::Attr(a)),
    ensures
        parse_ap_value(s, i, budget) == Some((ApV::Attr(a), i + enc_ap(ApV::Attr(a)).len())),
{
    let ap = ApV::Attr(a);
    let e = enc_ap(ap);
    let len = e.len() as int;
    assert forall|j: int| 0 <= j < len implies #[trigger] s[i + j] == e[j] by {
        assert(s.subrange(i, i + len)[j] == s[i + j]);
    }
            reveal_strlit("{\"Attr\":");
            reveal_strlit("Attr");
            let key = "Attr"@;
            let kt = attr_text(a);
            let ks = enc_string(kt);
            assert(e == "{\"Attr\":"@ + ks + seq!['}']);
            assert(e.len() == 8 + ks.len() + 1);
            assert(e[0] == '{' && e[1] == '"' && e[2] == 'A' && e[3] == 't' && e[4] == 't' && e[5]
                == 'r' && e[6] == '"' && e[7] == ':');
            assert(s[i] == '{');
            assert(skip_ws(s, i) == i);
            assert(expect_char(s, i, '{') == Some(i + 1));
            // the member key
            assert(('A' as u32) >= 0x20 && ('t' as u32) >= 0x20 && ('r' as u32) >= 0x20);
            assert(key.len() == 4);
            assert(key[0] == 'A' && key[1] == 't' && key[2] == 't' && key[3] == 'r');
            crate::json::lemma_esc_plain(key);
            assert(enc_string(key) =~= seq!['"', 'A', 't', 't', 'r', '"']);
            assert(s.subrange(i + 1, i + 1 + enc_string(key).len()) =~= enc_string(key));
            crate::json::lemma_parse_string_of_enc(s, i + 1, key);
            assert(parse_string(s, i + 1) == Some((key, i + 7)));
            assert(s[i + 7] == ':');
            assert(skip_ws(s, i + 7) == i + 7);
            assert(expect_char(s, i + 7, ':') == Some(i + 8));
            // the attribute text
            assert(s.subrange(i + 8, i + 8 + ks.len()) =~= ks) by {
                assert forall|j: int| 0 <= j < ks.len() implies s.subrange(
                    i + 8,
                    i + 8 + ks.len(),
                )[j] == ks[j] by {
                    assert(e[8 + j] == ks[j]);
                    assert(s[i + 8 + j] == e[8 + j]);
                }
            }
            crate::json::lemma_parse_string_of_enc(s, i + 8, kt);
            lemma_attr_of_text_of_attr(a);
            let after = i + 8 + ks.len();
            assert(e[len - 1] == '}');
            assert(s[after] == '}');
            assert(skip_ws(s, after as int) == after);
            assert(expect_char(s, after as int, '}') == Some(after + 1));
}

/// Reading an access-policy value over the encoding of a connective node,
/// given that its operand encodings read back correctly.
#[verifier::spinoff_prover]
#[verifier::rlimit(100)]
proof fn lemma_parse_ap_of_enc_node(s: Seq<char>, i: int, ap: ApV, budget: nat)
    requires
        ap matches ApV::And(_, _) || ap matches ApV::Or(_, _),
        0 <= i,
        i + enc_ap(ap).len() <= s.len(),
        s.subrange(i, i + enc_ap(ap).len()) == enc_ap(ap),
        budget >= enc_ap(ap).len(),
        ({
            let hl: int = if ap matches ApV::And(_, _) {
                8
            } else {
                7
            };
            match ap {
                ApV::And(l, r) | ApV::Or(l, r) => {
                    &&& parse_ap_value(s, i + hl, (budget - 1) as nat) == Some(
                        (*l, i + hl + enc_ap(*l).len()),
                    )
                    &&& parse_ap_value(
                        s,
                        i + hl + enc_ap(*l).len() + 1,
                        (budget - 1) as nat,
                    ) == Some((*r, i + hl + enc_ap(*l).len() + 1 + enc_ap(*r).len()))
                },
                _ => false,
            }
        }),
    ensures
        parse_ap_value(s, i, budget) == Some((ap, i + enc_ap(ap).len())),
{
    let e = enc_ap(ap);
    let len = e.len() as int;
    assert forall|j: int| 0 <= j < len implies #[trigger] s[i + j] == e[j] by {
        assert(s.subrange(i, i + len)[j] == s[i + j]);
    }
    match ap {
        ApV::And(l, r) | ApV::Or(l, r) => {
            reveal_strlit("{\"And\":[");
            reveal_strlit("{\"Or\":[");
            reveal_strlit("]}");
            reveal_strlit("And");
            reveal_strlit("Or");
            reveal_strlit("Attr");
            let is_and = ap matches ApV::And(_, _);
            let head: Seq<char> = if is_and {
                "{\"And\":["@
            } else {
                "{\"Or\":["@
            };
            let key: Seq<char> = if is_and {
                "And"@
            } else {
                "Or"@
            };
            let hl = head.len() as int;
            let el = enc_ap(*l);
            let er = enc_ap(*r);
            assert(e == head + el + seq![','] + er + "]}"@);
            assert(hl == key.len() + 5);
            assert(head[0] == '{' && head[1] == '"' && head[hl - 3] == '"' && head[hl - 2] == ':'
                && head[hl - 1] == '[') by {
                assert("{\"And\":["@.len() == 8 && "{\"Or\":["@.len() == 7);
            }
            assert(('A' as u32) >= 0x20 && ('n' as u32) >= 0x20 && ('d' as u32) >= 0x20 && ('O'
                as u32) >= 0x20 && ('r' as u32) >= 0x20);
            if is_and {
                assert(head[1] == '"' && head[2] == 'A' && head[3] == 'n' && head[4] == 'd');
                assert(key[0] == 'A' && key[1] == 'n' && key[2] == 'd');
            } else {
                assert(head[1] == '"' && head[2] == 'O' && head[3] == 'r');
                assert(key[0] == 'O' && key[1] == 'r');
            }
            assert forall|j: int| 0 <= j < key.len() implies #[trigger] key[j] != '"' && key[j]
                != '\\' && (key[j] as u32) >= 0x20 by {
                if j == 0 || j == 1 || j == 2 {
                }
            }
            assert(e[0] == head[0]);
            assert(s[i + 0] == e[0]);
            assert(s[i] == '{');
            assert(skip_ws(s, i) == i);
            assert(expect_char(s, i, '{') == Some(i + 1));
            crate::json::lemma_esc_plain(key);
            assert(enc_string(key) =~= seq!['"'] + key + seq!['"']);
            let kl = key.len() as int;
            assert(s.subrange(i + 1, i + 1 + enc_string(key).len()) =~= enc_string(key)) by {
                assert forall|j: int| 0 <= j < enc_string(key).len() implies s.subrange(
                    i + 1,
                    i + 1 + enc_string(key).len(),
                )[j] == enc_string(key)[j] by {
                    assert(s[i + 1 + j] == e[1 + j]);
                    assert(e[1 + j] == head[1 + j]);
                    if j == 0 {
                        assert(enc_string(key)[0] == '"');
                    } else if j == kl + 1 {
                        assert(1 + j == hl - 3);
                        assert(enc_string(key)[j] == '"');
                    } else {
                        assert(enc_string(key)[j] == key[j - 1]);
                        if j == 1 || j == 2 || j == 3 {
                        }
                    }
                }
            }
            crate::json::lemma_parse_string_of_enc(s, i + 1, key);
            assert(key != "Attr"@) by {
                assert("Attr"@.len() == 4 && "And"@.len() == 3 && "Or"@.len() == 2);
            }
            assert((key == "And"@) == is_and) by {
                assert("And"@.len() == 3 && "Or"@.len() == 2);
            }
            let jk = i + 1 + key.len() + 2;
            assert(e[kl + 3] == head[hl - 2]);
            assert(s[i + (kl + 3)] == e[kl + 3]);
            assert(s[jk] == ':');
            assert(skip_ws(s, jk as int) == jk);
            assert(expect_char(s, jk as int, ':') == Some(jk + 1));
            assert(e[kl + 4] == head[hl - 1]);
            assert(s[i + (kl + 4)] == e[kl + 4]);
            assert(s[jk + 1] == '[');
            assert(skip_ws(s, jk + 1) == jk + 1);
            assert(expect_char(s, jk + 1, '[') == Some(jk + 2));
            assert(jk + 2 == i + hl);
            // left operand
            assert(s.subrange(i + hl, i + hl + el.len()) =~= el) by {
                assert forall|j: int| 0 <= j < el.len() implies s.subrange(
                    i + hl,
                    i + hl + el.len(),
                )[j] == el[j] by {
                    assert(s[i + hl + j] == e[hl + j]);
                    assert(e[hl + j] == el[j]);
                }
            }
            assert(budget > 0);
            let p1 = i + hl + el.len() as int;
            assert(e[hl + el.len() as int] == ',');
            assert(s[p1] == ',');
            assert(skip_ws(s, p1) == p1);
            assert(expect_char(s, p1, ',') == Some(p1 + 1));
            // right operand
            assert(s.subrange(p1 + 1, p1 + 1 + er.len()) =~= er) by {
                assert forall|j: int| 0 <= j < er.len() implies s.subrange(
                    p1 + 1,
                    p1 + 1 + er.len(),
                )[j] == er[j] by {
                    assert(s[p1 + 1 + j] == e[hl + el.len() + 1 + j]);
                    assert(e[hl + el.len() + 1 + j] == er[j]);
                }
            }
            let p2 = p1 + 1 + er.len() as int;
            assert(e[len - 2] == ']' && e[len - 1] == '}');
            assert(s[p2] == ']' && s[p2 + 1] == '}');
            assert(skip_ws(s, p2) == p2);
            assert(expect_char(s, p2, ']') == Some(p2 + 1));
            assert(skip_ws(s, p2 + 1) == p2 + 1);
            assert(expect_char(s, p2 + 1, '}') == Some(p2 + 2));
            assert(p2 + 2 == i + len);
        },
        _ => {
            assert(false);
        },
    }
}

/// Reading an access-policy value over its encoding restores it and stops
/// just past it, whatever follows and for any sufficient recursion budget.
#[verifier::spinoff_prover]
#[verifier::rlimit(100)]
proof fn lemma_parse_ap_of_enc(s: Seq<char>, i: int, ap: ApV, budget: nat)
    requires
        ap_keys_ok(ap),
        0 <= i,
        i + enc_ap(ap).len() <= s.len(),
        s.subrange(i, i + enc_ap(ap).len()) == enc_ap(ap),
        budget >= enc_ap(ap).len(),
    ensures
        parse_ap_value(s, i, budget) == Some((ap, i + enc_ap(ap).len())),
    decreases ap,
{
    let e = enc_ap(ap);
    let len = e.len() as int;
    assert forall|j: int| 0 <= j < len implies #[trigger] s[i + j] == e[j] by {
        assert(s.subrange(i, i + len)[j] == s[i + j]);
    }
    match ap {
        ApV::All => {
            reveal_strlit("\"All\"");
            reveal_strlit("All");
            assert(e.len() == 5);
            assert(e[0] == '"' && e[1] == 'A' && e[2] == 'l' && e[3] == 'l' && e[4] == '"');
            assert(s[i] == '"');
            assert(skip_ws(s, i) == i);
            assert(parse_str_body(s, i + 4) == Some((Seq::<char>::empty(), i + 5)));
            assert(('A' as u32) >= 0x20 && ('l' as u32) >= 0x20);
            assert(parse_str_body(s, i + 3) == Some((seq!['l'], i + 5)));
            assert(parse_str_body(s, i + 2) == Some((seq!['l', 'l'], i + 5)));
            assert(parse_str_body(s, i + 1) == Some((seq!['A', 'l', 'l'], i + 5)));
            assert(seq!['A', 'l', 'l'] =~= "All"@);
            assert(parse_string(s, i) == Some(("All"@, i + 5)));
        },
        ApV::Attr(a) => {
            lemma_parse_ap_of_enc_attr(s, i, a, budget);
        },
        ApV::And(l, r) | ApV::Or(l, r) => {
            let hl: int = if ap matches ApV::And(_, _) {
                8
            } else {
                7
            };
            assert(e == (if ap matches ApV::And(_, _) {
                "{\"And\":["@
            } else {
                "{\"Or\":["@
            }) + enc_ap(*l) + seq![','] + enc_ap(*r) + "]}"@);
            assert(hl == (if ap matches ApV::And(_, _) {
                "{\"And\":["@.len() as int
            } else {
                "{\"Or\":["@.len() as int
            })) by {
                reveal_strlit("{\"And\":[");
                reveal_strlit("{\"Or\":[");
            }
            let el = enc_ap(*l);
            let er = enc_ap(*r);
            assert(s.subrange(i + hl, i + hl + el.len()) =~= el) by {
                assert forall|j: int| 0 <= j < el.len() implies s.subrange(
                    i + hl,
                    i + hl + el.len(),
                )[j] == el[j] by {
                    assert(s[i + hl + j] == e[hl + j]);
                    assert(e[hl + j] == el[j]);
                }
            }
            lemma_parse_ap_of_enc(s, i + hl, *l, (budget - 1) as nat);
            let p1 = i + hl + el.len() as int;
            assert(s.subrange(p1 + 1, p1 + 1 + er.len()) =~= er) by {
                assert forall|j: int| 0 <= j < er.len() implies s.subrange(
                    p1 + 1,
                    p1 + 1 + er.len(),
                )[j] == er[j] by {
                    assert(s[p1 + 1 + j] == e[hl + el.len() + 1 + j]);
                    assert(e[hl + el.len() + 1 + j] == er[j]);
                }
            }
            lemma_parse_ap_of_enc(s, p1 + 1, *r, (budget - 1) as nat);
            lemma_parse_ap_of_enc_node(s, i, ap, budget);
        },
    }
}

/// Law (encoding round trip): an access policy whose axis texts are free
/// of `::` and do not end in `:`, rendered to its structured encoding and
/// decoded again, is restored exactly. An axis name such as `a:` is the
/// kind of input left out: its key text would split at the wrong place.
pub proof fn lemma_ap_encoding_round_trip(ap: ApV)
    requires
        ap_keys_ok(ap),
    ensures
        parse_ap_text(enc_ap(ap)) == Some(ap),
{
    let s = enc_ap(ap);
    assert(s.subrange(0, s.len() as int) =~= s);
    lemma_parse_ap_of_enc(s, 0, ap, s.len() as nat);
    assert(skip_ws(s, s.len() as int) == s.len());
}

} // verus!
