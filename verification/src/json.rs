//! A plain model of JSON documents, the dot-and-bracket path grammar of the
//! HTTP probe's metric extraction, and the coercion of tree nodes into
//! numeric metric values. Parsing text into the tree is the one step done
//! by an outside parser; everything that walks the tree is verified.

use crate::numfmt::{is_number_seq, trim_seq, trim_str, is_number_str};
use crate::strings::str_eq;
use vstd::prelude::*;

verus! {

/// A JSON document as plain values. Numbers keep the decimal rendering the
/// parser gave them.
pub enum JsonNode {
    Null,
    Bool(bool),
    Num(String),
    Str(String),
    Arr(Vec<JsonNode>),
    Obj(Vec<(String, JsonNode)>),
}

/// The tree an outside JSON parser yields for a text, when the text parses.
pub uninterp spec fn json_tree_of(s: Seq<char>) -> Option<JsonNode>;

#[verifier::external_type_specification]
#[verifier::external_body]
pub struct ExJsonValue(serde_json::Value);

/// Relies on `serde_json::from_str`: the parsed tree (or the failure) is a
/// function of the input text alone. The tree itself is converted by
/// `json_value_to_node`.
#[verifier::external_body]
pub fn parse_json_text(s: &str) -> (r: Option<JsonNode>)
    ensures
        r == json_tree_of(s@),
{
    serde_json::from_str::<serde_json::Value>(s).ok().map(|v| json_value_to_node(&v))
}

/// Relies on `serde_json::Value`: its six variants are carried over one for
/// one, numbers via `Number::to_string`. This is the converting half of
/// `parse_json_text`, whose contract speaks for both.
#[verifier::external_body]
fn json_value_to_node(v: &serde_json::Value) -> JsonNode {
    match v {
        serde_json::Value::Null => JsonNode::Null,
        serde_json::Value::Bool(b) => JsonNode::Bool(*b),
        serde_json::Value::Number(n) => JsonNode::Num(n.to_string()),
        serde_json::Value::String(s) => JsonNode::Str(s.clone()),
        serde_json::Value::Array(a) => JsonNode::Arr(a.iter().map(json_value_to_node).collect()),
        serde_json::Value::Object(o) => JsonNode::Obj(
            o.iter().map(|(k, x)| (k.clone(), json_value_to_node(x))).collect(),
        ),
    }
}

/// One step of a metric-extraction path: an object key or an array index.
pub enum PathSeg {
    Key(String),
    Index(usize),
}

/// A path text split at every dot; splitting never yields an empty list.
pub open spec fn split_dots(s: Seq<char>) -> Seq<Seq<char>>
    decreases s.len(),
{
    if s.len() == 0 {
        seq![Seq::<char>::empty()]
    } else if s[0] == '.' {
        seq![Seq::<char>::empty()] + split_dots(s.skip(1))
    } else {
        let rest = split_dots(s.skip(1));
        seq![seq![s[0]] + rest[0]] + rest.skip(1)
    }
}

pub proof fn lemma_split_nonempty(s: Seq<char>)
    ensures
        split_dots(s).len() >= 1,
    decreases s.len(),
{
    if s.len() > 0 {
        lemma_split_nonempty(s.skip(1));
    }
}

/// The value of a run of decimal digits.
pub open spec fn dec_value(s: Seq<char>) -> int
    decreases s.len(),
{
    if s.len() == 0 {
        0
    } else {
        dec_value(s.drop_last()) * 10 + (s.last() as int - '0' as int)
    }
}

/// How one part of a path is read: `[digits]` (fitting a machine index) is
/// an array index, anything else an object key.
pub open spec fn spec_seg_kind(part: Seq<char>) -> (bool, int) {
    if part.len() >= 3 && part[0] == '[' && part[part.len() - 1] == ']' && (forall|i: int|
        1 <= i < part.len() - 1 ==> crate::numfmt::is_dec_digit(#[trigger] part[i])) && dec_value(
        part.subrange(1, part.len() - 1),
    ) <= usize::MAX {
        (true, dec_value(part.subrange(1, part.len() - 1)))
    } else {
        (false, 0)
    }
}

/// A parsed segment matches its part text.
pub open spec fn seg_matches(seg: PathSeg, part: Seq<char>) -> bool {
    if spec_seg_kind(part).0 {
        seg matches PathSeg::Index(i) && i == spec_seg_kind(part).1
    } else {
        seg matches PathSeg::Key(k) && k@ == part
    }
}

fn parse_index_part(part: &str) -> (r: Option<usize>)
    ensures
        match r {
            Option::Some(i) => spec_seg_kind(part@).0 && i == spec_seg_kind(part@).1,
            Option::None => !spec_seg_kind(part@).0,
        },
{
    let n = part.unicode_len();
    if n < 3 {
        return Option::None;
    }
    if part.get_char(0) != '[' || part.get_char(n - 1) != ']' {
        return Option::None;
    }
    let mut v: usize = 0;
    let mut i: usize = 1;
    while i < n - 1
        invariant
            1 <= i <= n - 1,
            n == part@.len(),
            n >= 3,
            forall|k: int| 1 <= k < i ==> crate::numfmt::is_dec_digit(#[trigger] part@[k]),
            v == dec_value(part@.subrange(1, i as int)),
            v <= usize::MAX,
        decreases n - i,
    {
        let c = part.get_char(i);
        if !('0' <= c && c <= '9') {
            proof {
                assert(part@.subrange(1, n - 1)[i - 1] == part@[i as int]);
            }
            return Option::None;
        }
        let d = (c as usize) - ('0' as usize);
        proof {
            assert(part@.subrange(1, i + 1).drop_last() =~= part@.subrange(1, i as int));
            assert(part@.subrange(1, i + 1).last() == part@[i as int]);
        }
        if v > (usize::MAX - d) / 10 {
            // the index would not fit a machine word
            proof {
                assert(v * 10 + d > usize::MAX);
                if spec_seg_kind(part@).0 {
                    lemma_dec_value_monotone(part@, i + 1, n - 1);
                }
            }
            return Option::None;
        }
        v = v * 10 + d;
        i = i + 1;
    }
    proof {
        assert(part@.subrange(1, n - 1) =~= part@.subrange(1, (n - 1) as int));
    }
    Option::Some(v)
}

/// A run of digits has a nonnegative value that only grows as it extends.
proof fn lemma_dec_value_monotone(part: Seq<char>, a: int, b: int)
    requires
        1 <= a <= b <= part.len(),
        forall|k: int| 1 <= k < b ==> crate::numfmt::is_dec_digit(#[trigger] part[k]),
    ensures
        dec_value(part.subrange(1, b)) >= dec_value(part.subrange(1, a)) >= 0,
    decreases b - a,
{
    if a == b {
        lemma_dec_value_nonneg(part, a);
    } else {
        lemma_dec_value_monotone(part, a, b - 1);
        assert(part.subrange(1, b).drop_last() =~= part.subrange(1, b - 1));
        assert(part.subrange(1, b).last() == part[b - 1]);
    }
}

proof fn lemma_dec_value_nonneg(part: Seq<char>, a: int)
    requires
        1 <= a <= part.len(),
        forall|k: int| 1 <= k < a ==> crate::numfmt::is_dec_digit(#[trigger] part[k]),
    ensures
        dec_value(part.subrange(1, a)) >= 0,
    decreases a,
{
    if a > 1 {
        lemma_dec_value_nonneg(part, a - 1);
        assert(part.subrange(1, a).drop_last() =~= part.subrange(1, a - 1));
        assert(part.subrange(1, a).last() == part[a - 1]);
    }
}

/// Parse a metric-extraction path: dot-separated parts, each either an
/// object key or a bracketed array index.
pub fn parse_json_path(path: &str) -> (segs: Vec<PathSeg>)
    ensures
        segs@.len() == split_dots(path@).len(),
        forall|j: int|
            0 <= j < segs@.len() ==> seg_matches(#[trigger] segs@[j], split_dots(path@)[j]),
{
    let n = path.unicode_len();
    let mut segs: Vec<PathSeg> = Vec::new();
    let mut cur = String::new();
    let mut i: usize = 0;
    proof {
        assert(path@.skip(0) =~= path@);
        lemma_split_nonempty(path@);
        assert(cur@ + split_dots(path@)[0] =~= split_dots(path@)[0]);
    }
    while i < n
        invariant
            i <= n == path@.len(),
            forall|j: int|
                0 <= j < segs@.len() ==> seg_matches(#[trigger] segs@[j], split_dots(path@)[j]),
            segs@.len() + 1 + split_dots(path@.skip(i as int)).len() - 1 == split_dots(
                path@,
            ).len(),
            split_dots(path@)[segs@.len() as int] == cur@ + split_dots(path@.skip(i as int))[0],
            forall|j: int|
                segs@.len() < j < split_dots(path@).len() ==> split_dots(path@)[j] == split_dots(
                    path@.skip(i as int),
                )[j - segs@.len()],
        decreases n - i,
    {
        proof {
            lemma_split_nonempty(path@.skip(i + 1));
            assert(path@.skip(i as int)[0] == path@[i as int]);
            assert(path@.skip(i as int).skip(1) =~= path@.skip(i + 1));
        }
        let c = path.get_char(i);
        if c == '.' {
            let seg = finish_segment(&cur);
            segs.push(seg);
            cur = String::new();
        } else {
            cur.push(c);
        }
        i = i + 1;
    }
    proof {
        lemma_split_nonempty(path@.skip(n as int));
        assert(path@.skip(n as int) =~= Seq::<char>::empty());
    }
    let seg = finish_segment(&cur);
    segs.push(seg);
    segs
}

fn finish_segment(cur: &String) -> (seg: PathSeg)
    ensures
        seg_matches(seg, cur@),
{
    match parse_index_part(cur.as_str()) {
        Option::Some(i) => PathSeg::Index(i),
        Option::None => PathSeg::Key(cur.clone()),
    }
}

/// The first field of an object with this name.
pub open spec fn lookup_field(fields: Seq<(String, JsonNode)>, name: Seq<char>) -> Option<JsonNode>
    decreases fields.len(),
{
    if fields.len() == 0 {
        Option::None
    } else if fields[0].0@ == name {
        Option::Some(fields[0].1)
    } else {
        lookup_field(fields.skip(1), name)
    }
}

/// Walking a tree along parsed segments: keys step into objects, indexes
/// into arrays; anything else is a miss.
pub open spec fn spec_lookup_path(node: JsonNode, segs: Seq<PathSeg>) -> Option<JsonNode>
    decreases segs.len(),
{
    if segs.len() == 0 {
        Option::Some(node)
    } else {
        match (node, segs[0]) {
            (JsonNode::Obj(fields), PathSeg::Key(k)) => match lookup_field(fields@, k@) {
                Option::Some(child) => spec_lookup_path(child, segs.skip(1)),
                Option::None => Option::None,
            },
            (JsonNode::Arr(items), PathSeg::Index(i)) => if i < items@.len() {
                spec_lookup_path(items@[i as int], segs.skip(1))
            } else {
                Option::None
            },
            _ => Option::None,
        }
    }
}

pub fn find_field<'a>(fields: &'a Vec<(String, JsonNode)>, name: &str) -> (r: Option<&'a JsonNode>)
    ensures
        match r {
            Option::Some(child) => lookup_field(fields@, name@) == Option::Some(*child),
            Option::None => lookup_field(fields@, name@) is None,
        },
{
    let n = fields.len();
    let mut i: usize = 0;
    proof {
        assert(fields@.skip(0) =~= fields@);
    }
    while i < n
        invariant
            i <= n == fields@.len(),
            lookup_field(fields@, name@) == lookup_field(fields@.skip(i as int), name@),
        decreases n - i,
    {
        proof {
            assert(fields@.skip(i as int)[0] == fields@[i as int]);
            assert(fields@.skip(i as int).skip(1) =~= fields@.skip(i + 1));
        }
        if str_eq(fields[i].0.as_str(), name) {
            return Option::Some(&fields[i].1);
        }
        i = i + 1;
    }
    Option::None
}

/// Walk a tree along a parsed path.
pub fn lookup_path<'a>(node: &'a JsonNode, segs: &Vec<PathSeg>, from: usize) -> (r: Option<
    &'a JsonNode,
>)
    requires
        from <= segs@.len(),
    ensures
        match r {
            Option::Some(child) => spec_lookup_path(*node, segs@.skip(from as int))
                == Option::Some(*child),
            Option::None => spec_lookup_path(*node, segs@.skip(from as int)) is None,
        },
    decreases segs@.len() - from,
{
    if from == segs.len() {
        proof {
            assert(segs@.skip(from as int) =~= Seq::<PathSeg>::empty());
        }
        return Option::Some(node);
    }
    proof {
        assert(segs@.skip(from as int)[0] == segs@[from as int]);
        assert(segs@.skip(from as int).skip(1) =~= segs@.skip(from + 1));
    }
    match (node, &segs[from]) {
        (JsonNode::Obj(fields), PathSeg::Key(k)) => match find_field(fields, k.as_str()) {
            Option::Some(child) => lookup_path(child, segs, from + 1),
            Option::None => Option::None,
        },
        (JsonNode::Arr(items), PathSeg::Index(i)) => {
            if *i < items.len() {
                lookup_path(&items[*i], segs, from + 1)
            } else {
                Option::None
            }
        },
        _ => Option::None,
    }
}

/// How a tree node coerces to a numeric metric value: a number keeps its
/// rendering, a plain-number text is trimmed and kept, a boolean maps to 1
/// or 0, anything else has no value.
pub open spec fn spec_coerce(node: JsonNode) -> Option<Seq<char>> {
    match node {
        JsonNode::Num(s) => Option::Some(s@),
        JsonNode::Str(s) => if is_number_seq(trim_seq(s@)) {
            Option::Some(trim_seq(s@))
        } else {
            Option::None
        },
        JsonNode::Bool(b) => Option::Some(
            if b {
                ("1")@
            } else {
                ("0")@
            },
        ),
        _ => Option::None,
    }
}

/// Coerce a tree node to a numeric metric value.
pub fn coerce_numeric(node: &JsonNode) -> (r: Option<String>)
    ensures
        match r {
            Option::Some(v) => spec_coerce(*node) == Option::Some(v@),
            Option::None => spec_coerce(*node) is None,
        },
{
    match node {
        JsonNode::Num(s) => Option::Some(s.clone()),
        JsonNode::Str(s) => {
            let t = trim_str(s.as_str());
            if is_number_str(t.as_str()) {
                Option::Some(t)
            } else {
                Option::None
            }
        },
        JsonNode::Bool(b) => {
            if *b {
                Option::Some(String::from_str("1"))
            } else {
                Option::Some(String::from_str("0"))
            }
        },
        _ => Option::None,
    }
}

/// What one configured path contributes for a parsed body: the coerced
/// value at its end, when the walk lands on one.
pub open spec fn spec_path_metric(root: JsonNode, path: Seq<char>, segs: Seq<PathSeg>) -> Option<
    Seq<char>,
> {
    match spec_lookup_path(root, segs) {
        Option::Some(node) => spec_coerce(node),
        Option::None => Option::None,
    }
}

/// Every extracted metric is honest: its name is a configured one, and its
/// value is what the configured path's walk and coercion give on the parsed
/// body.
/// Two parsed segment lists for the same path parts walk any tree to the
/// same place: a part determines its segment up to the key text.
pub proof fn lemma_lookup_path_congruent(
    node: JsonNode,
    s1: Seq<PathSeg>,
    s2: Seq<PathSeg>,
    parts: Seq<Seq<char>>,
)
    requires
        seg_list_matches(s1, parts),
        seg_list_matches(s2, parts),
    ensures
        spec_lookup_path(node, s1) == spec_lookup_path(node, s2),
    decreases parts.len(),
{
    if parts.len() > 0 {
        assert(seg_matches(s1[0], parts[0]));
        assert(seg_matches(s2[0], parts[0]));
        assert(seg_list_matches(s1.skip(1), parts.skip(1))) by {
            assert forall|j: int|
                0 <= j < s1.skip(1).len() implies seg_matches(
                #[trigger] s1.skip(1)[j],
                parts.skip(1)[j],
            ) by {
                assert(s1.skip(1)[j] == s1[j + 1]);
                assert(parts.skip(1)[j] == parts[j + 1]);
            }
        }
        assert(seg_list_matches(s2.skip(1), parts.skip(1))) by {
            assert forall|j: int|
                0 <= j < s2.skip(1).len() implies seg_matches(
                #[trigger] s2.skip(1)[j],
                parts.skip(1)[j],
            ) by {
                assert(s2.skip(1)[j] == s2[j + 1]);
                assert(parts.skip(1)[j] == parts[j + 1]);
            }
        }
        if spec_seg_kind(parts[0]).0 {
            match node {
                JsonNode::Arr(items) => {
                    let i = spec_seg_kind(parts[0]).1;
                    if 0 <= i < items@.len() {
                        lemma_lookup_path_congruent(
                            items@[i],
                            s1.skip(1),
                            s2.skip(1),
                            parts.skip(1),
                        );
                    }
                },
                _ => {},
            }
        } else {
            match node {
                JsonNode::Obj(fields) => {
                    match lookup_field(fields@, parts[0]) {
                        Option::Some(child) => {
                            lemma_lookup_path_congruent(child, s1.skip(1), s2.skip(1), parts.skip(1));
                        },
                        Option::None => {},
                    }
                },
                _ => {},
            }
        }
    } else {
        assert(s1.len() == 0 && s2.len() == 0);
    }
}

/// Every found metric is delivered: a configured path whose walk over the
/// parsed body coerces to a value puts that value into the output under its
/// name.
pub open spec fn extract_complete(
    body: Seq<char>,
    paths: Seq<(String, String)>,
    out: Seq<(String, String)>,
    upto: int,
) -> bool {
    forall|p: int|
        #![trigger paths[p]]
        0 <= p < upto ==> (forall|segs: Seq<PathSeg>|
            #[trigger] seg_list_matches(segs, split_dots(paths[p].1@)) ==> (match spec_path_metric(
                json_tree_of(body)->Some_0,
                paths[p].1@,
                segs,
            ) {
                Option::Some(v) => exists|j: int|
                    0 <= j < out.len() && (#[trigger] out[j]).0 == paths[p].0 && out[j].1@ == v,
                Option::None => true,
            }))
}

pub open spec fn extract_post(
    body: Seq<char>,
    paths: Seq<(String, String)>,
    out: Seq<(String, String)>,
) -> bool {
    forall|j: int|
        0 <= j < out.len() ==> (json_tree_of(body) is Some && exists|p: int|
            0 <= p < paths.len() && (#[trigger] out[j]).0 == paths[p].0 && (exists|
                segs: Seq<PathSeg>,
            |
                seg_list_matches(segs, split_dots(paths[p].1@)) && spec_path_metric(
                    json_tree_of(body)->Some_0,
                    paths[p].1@,
                    segs,
                ) == Option::Some(out[j].1@)))
}

/// Extract the configured metrics from a response body: parse it, walk each
/// configured path, and keep each name whose node coerces to a number. A
/// body that does not parse yields no metrics, never an error.
pub fn extract_json_metrics(body: &str, paths: &Vec<(String, String)>) -> (out: Vec<
    (String, String),
>)
    ensures
        json_tree_of(body@) is None ==> out@.len() == 0,
        out@.len() <= paths@.len(),
        extract_post(body@, paths@, out@),
        json_tree_of(body@) is Some ==> extract_complete(
            body@,
            paths@,
            out@,
            paths@.len() as int,
        ),
{
    let parsed = parse_json_text(body);
    let mut out: Vec<(String, String)> = Vec::new();
    match parsed {
        Option::None => out,
        Option::Some(root) => {
            let n = paths.len();
            let mut i: usize = 0;
            while i < n
                invariant
                    i <= n == paths@.len(),
                    out@.len() <= i,
                    json_tree_of(body@) matches Option::Some(r2) && r2 == root,
                    extract_post(body@, paths@, out@),
                    extract_complete(body@, paths@, out@, i as int),
                decreases n - i,
            {
                let segs = parse_json_path(paths[i].1.as_str());
                proof {
                    assert(segs@.skip(0) =~= segs@);
                    assert(seg_list_matches(segs@, split_dots(paths@[i as int].1@)));
                    assert(json_tree_of(body@)->Some_0 == root);
                }
                match lookup_path(&root, &segs, 0) {
                    Option::Some(node) => {
                        match coerce_numeric(node) {
                            Option::Some(v) => {
                                let ghost prev = out@;
                                out.push((paths[i].0.clone(), v));
                                proof {
                                    assert forall|j: int|
                                        0 <= j < out@.len() implies (json_tree_of(body@) is Some
                                        && exists|p: int|
                                        0 <= p < paths@.len() && (#[trigger] out@[j]).0
                                            == paths@[p].0 && (exists|segs2: Seq<PathSeg>|
                                            seg_list_matches(
                                                segs2,
                                                split_dots(paths@[p].1@),
                                            ) && spec_path_metric(
                                                json_tree_of(body@)->Some_0,
                                                paths@[p].1@,
                                                segs2,
                                            ) == Option::Some(out@[j].1@))) by {
                                        if j < out@.len() - 1 {
                                            assert(out@[j] == prev[j]);
                                        } else {
                                            assert(out@[j].0 == paths@[i as int].0);
                                            assert(spec_path_metric(
                                                json_tree_of(body@)->Some_0,
                                                paths@[i as int].1@,
                                                segs@,
                                            ) == Option::Some(out@[j].1@));
                                        }
                                    }
                                    // every matching segment list finds the
                                    // same value, which the output now holds
                                    assert forall|p: int|
                                        #![trigger paths@[p]]
                                        0 <= p < i + 1 implies (forall|segs2: Seq<PathSeg>|
                                        #[trigger] seg_list_matches(
                                            segs2,
                                            split_dots(paths@[p].1@),
                                        ) ==> (match spec_path_metric(
                                            json_tree_of(body@)->Some_0,
                                            paths@[p].1@,
                                            segs2,
                                        ) {
                                            Option::Some(v2) => exists|j: int|
                                                0 <= j < out@.len() && (#[trigger] out@[j]).0
                                                    == paths@[p].0 && out@[j].1@ == v2,
                                            Option::None => true,
                                        })) by {
                                        assert forall|segs2: Seq<PathSeg>|
                                            #[trigger] seg_list_matches(
                                                segs2,
                                                split_dots(paths@[p].1@),
                                            ) implies (match spec_path_metric(
                                            json_tree_of(body@)->Some_0,
                                            paths@[p].1@,
                                            segs2,
                                        ) {
                                            Option::Some(v2) => exists|j: int|
                                                0 <= j < out@.len() && (#[trigger] out@[j]).0
                                                    == paths@[p].0 && out@[j].1@ == v2,
                                            Option::None => true,
                                        }) by {
                                            if p < i {
                                                match spec_path_metric(
                                                    json_tree_of(body@)->Some_0,
                                                    paths@[p].1@,
                                                    segs2,
                                                ) {
                                                    Option::Some(v2) => {
                                                        let j = choose|j: int|
                                                            0 <= j < prev.len() && (
                                                            #[trigger] prev[j]).0 == paths@[p].0
                                                                && prev[j].1@ == v2;
                                                        assert(out@[j] == prev[j]);
                                                    },
                                                    Option::None => {},
                                                }
                                            } else {
                                                lemma_lookup_path_congruent(
                                                    root,
                                                    segs2,
                                                    segs@,
                                                    split_dots(paths@[p].1@),
                                                );
                                                assert(out@[out@.len() - 1].0 == paths@[p].0);
                                            }
                                        }
                                    }
                                }
                            },
                            Option::None => {
                                proof {
                                    assert forall|p: int|
                                        #![trigger paths@[p]]
                                        0 <= p < i + 1 implies (forall|segs2: Seq<PathSeg>|
                                        #[trigger] seg_list_matches(
                                            segs2,
                                            split_dots(paths@[p].1@),
                                        ) ==> (match spec_path_metric(
                                            json_tree_of(body@)->Some_0,
                                            paths@[p].1@,
                                            segs2,
                                        ) {
                                            Option::Some(v2) => exists|j: int|
                                                0 <= j < out@.len() && (#[trigger] out@[j]).0
                                                    == paths@[p].0 && out@[j].1@ == v2,
                                            Option::None => true,
                                        })) by {
                                        if p == i {
                                            assert forall|segs2: Seq<PathSeg>|
                                                #[trigger] seg_list_matches(
                                                    segs2,
                                                    split_dots(paths@[p].1@),
                                                ) implies spec_path_metric(
                                                json_tree_of(body@)->Some_0,
                                                paths@[p].1@,
                                                segs2,
                                            ) is None by {
                                                lemma_lookup_path_congruent(
                                                    root,
                                                    segs2,
                                                    segs@,
                                                    split_dots(paths@[p].1@),
                                                );
                                            }
                                        }
                                    }
                                }
                            },
                        }
                    },
                    Option::None => {
                        proof {
                            assert forall|p: int|
                                #![trigger paths@[p]]
                                0 <= p < i + 1 implies (forall|segs2: Seq<PathSeg>|
                                #[trigger] seg_list_matches(
                                    segs2,
                                    split_dots(paths@[p].1@),
                                ) ==> (match spec_path_metric(
                                    json_tree_of(body@)->Some_0,
                                    paths@[p].1@,
                                    segs2,
                                ) {
                                    Option::Some(v2) => exists|j: int|
                                        0 <= j < out@.len() && (#[trigger] out@[j]).0
                                            == paths@[p].0 && out@[j].1@ == v2,
                                    Option::None => true,
                                })) by {
                                if p == i {
                                    assert forall|segs2: Seq<PathSeg>|
                                        #[trigger] seg_list_matches(
                                            segs2,
                                            split_dots(paths@[p].1@),
                                        ) implies spec_path_metric(
                                        json_tree_of(body@)->Some_0,
                                        paths@[p].1@,
                                        segs2,
                                    ) is None by {
                                        lemma_lookup_path_congruent(
                                            root,
                                            segs2,
                                            segs@,
                                            split_dots(paths@[p].1@),
                                        );
                                    }
                                }
                            }
                        }
                    },
                }
                i = i + 1;
            }
            proof {
                assert(out@.len() <= paths@.len());
            }
            out
        },
    }
}

/// Every parsed segment matches its part of the split path.
pub open spec fn seg_list_matches(segs: Seq<PathSeg>, parts: Seq<Seq<char>>) -> bool {
    segs.len() == parts.len() && forall|j: int|
        0 <= j < segs.len() ==> seg_matches(#[trigger] segs[j], parts[j])
}

} // verus!
