//! The dynamic metric bag a probe produces, and its expansion into the
//! custom placeholders of heartbeat templates. Metric values carry their
//! decimal rendering as text.

use crate::config::{Monitor, ServiceKind, service_kind, spec_service_kind};
use crate::strings::str_eq;
use crate::template::pairs_view;
use vstd::prelude::*;

verus! {

/// The first value stored under a name, scanning front to back.
pub open spec fn lookup_metric(ms: Seq<(String, String)>, name: Seq<char>) -> Option<Seq<char>>
    decreases ms.len(),
{
    if ms.len() == 0 {
        Option::None
    } else if ms[0].0@ == name {
        Option::Some(ms[0].1@)
    } else {
        lookup_metric(ms.skip(1), name)
    }
}

/// The outcome of one successful probe: named numeric metrics, each value a
/// decimal rendering. An empty result is valid: reachable, no metrics.
pub struct CheckResult {
    pub metrics: Vec<(String, String)>,
}

impl CheckResult {
    /// What a name resolves to.
    pub open spec fn spec_get(self, name: Seq<char>) -> Option<Seq<char>> {
        lookup_metric(self.metrics@, name)
    }

    /// An empty result: the service answered, nothing measured.
    pub fn empty() -> (r: CheckResult)
        ensures
            r.metrics@.len() == 0,
            forall|name: Seq<char>| r.spec_get(name) is None,
    {
        CheckResult { metrics: Vec::new() }
    }

    /// A result carrying only a latency measurement, when one was taken.
    pub fn from_latency(latency: Option<String>) -> (r: CheckResult)
        ensures
            match latency {
                Option::Some(v) => r.metrics@.len() == 1 && r.metrics@[0].0@ == ("latency")@
                    && r.metrics@[0].1 == v,
                Option::None => r.metrics@.len() == 0,
            },
    {
        let mut metrics: Vec<(String, String)> = Vec::new();
        match latency {
            Option::Some(v) => {
                metrics.push((String::from_str("latency"), v));
            },
            Option::None => {},
        }
        CheckResult { metrics }
    }

    /// Add a metric at the back; an earlier metric of the same name keeps
    /// priority on lookup.
    pub fn insert(&mut self, name: String, value: String)
        ensures
            final(self).metrics@ == old(self).metrics@.push((name, value)),
    {
        self.metrics.push((name, value));
    }

    /// Look a metric up by name.
    pub fn get(&self, name: &str) -> (r: Option<&String>)
        ensures
            match r {
                Option::Some(v) => self.spec_get(name@) == Option::Some(v@),
                Option::None => self.spec_get(name@) is None,
            },
    {
        let n = self.metrics.len();
        let mut i: usize = 0;
        proof {
            assert(self.metrics@.skip(0) =~= self.metrics@);
        }
        while i < n
            invariant
                i <= n == self.metrics@.len(),
                lookup_metric(self.metrics@, name@) == lookup_metric(
                    self.metrics@.skip(i as int),
                    name@,
                ),
            decreases n - i,
        {
            proof {
                assert(self.metrics@.skip(i as int)[0] == self.metrics@[i as int]);
                assert(self.metrics@.skip(i as int).skip(1) =~= self.metrics@.skip(i + 1));
            }
            if str_eq(self.metrics[i].0.as_str(), name) {
                return Option::Some(&self.metrics[i].1);
            }
            i = i + 1;
        }
        Option::None
    }

    /// The latency metric, in milliseconds.
    pub fn latency(&self) -> (r: Option<&String>)
        ensures
            match r {
                Option::Some(v) => self.spec_get(("latency")@) == Option::Some(v@),
                Option::None => self.spec_get(("latency")@) is None,
            },
    {
        self.get("latency")
    }
}

/// The names whose placeholders are produced for every result.
pub open spec fn is_well_known_metric(name: Seq<char>) -> bool {
    ||| name == ("latency")@
    ||| name == ("custom1")@
    ||| name == ("custom2")@
    ||| name == ("custom3")@
    ||| name == ("playerCount")@
}

/// `{name}`.
pub open spec fn braced(name: Seq<char>) -> Seq<char> {
    seq!['{'] + name + seq!['}']
}

/// The substitution pairs contributed by metrics outside the well-known
/// names, in stored order.
pub open spec fn extra_pairs(ms: Seq<(String, String)>) -> Seq<(Seq<char>, Seq<char>)>
    decreases ms.len(),
{
    if ms.len() == 0 {
        Seq::empty()
    } else {
        extra_pairs(ms.drop_last()) + (if is_well_known_metric(ms.last().0@) {
            Seq::empty()
        } else {
            seq![(braced(ms.last().0@), ms.last().1@)]
        })
    }
}

/// A result that holds only well-known names contributes no extra pairs.
pub proof fn lemma_no_extras(ms: Seq<(String, String)>)
    requires
        forall|i: int| 0 <= i < ms.len() ==> is_well_known_metric((#[trigger] ms[i]).0@),
    ensures
        extra_pairs(ms).len() == 0,
    decreases ms.len(),
{
    if ms.len() > 0 {
        lemma_no_extras(ms.drop_last());
    }
}

/// Whether the monitor is one of the Minecraft variants.
pub open spec fn is_minecraft(m: Monitor) -> bool {
    spec_service_kind(m) == Option::Some(ServiceKind::MinecraftJava) || spec_service_kind(m)
        == Option::Some(ServiceKind::MinecraftBedrock)
}

fn get_or_empty(result: &CheckResult, name: &str) -> (r: String)
    ensures
        r@ == match result.spec_get(name@) {
            Option::Some(v) => v,
            Option::None => Seq::<char>::empty(),
        },
{
    match result.get(name) {
        Option::Some(v) => v.clone(),
        Option::None => String::new(),
    }
}

/// The custom substitution pairs of one result: `{custom1}`, `{custom2}`,
/// `{custom3}` always (empty when absent), `{playerCount}` exactly when the
/// monitor is a Minecraft variant (aliased to `custom1` unless set), and one
/// `{name}` pair for every further metric. A result holding only well-known
/// names thus yields exactly those three pairs, plus the fourth for
/// Minecraft.
pub fn resolve_custom_placeholders(monitor: &Monitor, result: &CheckResult) -> (subs: Vec<
    (String, String),
>)
    ensures
        subs@.len() == (if is_minecraft(*monitor) {
            4int
        } else {
            3int
        }) + extra_pairs(result.metrics@).len(),
        subs@[0].0@ == ("{custom1}")@ && subs@[0].1@ == or_empty(
            result.spec_get(("custom1")@),
        ),
        subs@[1].0@ == ("{custom2}")@ && subs@[1].1@ == or_empty(
            result.spec_get(("custom2")@),
        ),
        subs@[2].0@ == ("{custom3}")@ && subs@[2].1@ == or_empty(
            result.spec_get(("custom3")@),
        ),
        is_minecraft(*monitor) ==> subs@[3].0@ == ("{playerCount}")@ && subs@[3].1@ == (match result.spec_get(("playerCount")@) {
            Option::Some(v) => v,
            Option::None => or_empty(result.spec_get(("custom1")@)),
        }),
        pairs_view(subs@).skip(
            if is_minecraft(*monitor) {
                4int
            } else {
                3int
            },
        ) == extra_pairs(result.metrics@),
{
    let mut subs: Vec<(String, String)> = Vec::new();
    subs.push((String::from_str("{custom1}"), get_or_empty(result, "custom1")));
    subs.push((String::from_str("{custom2}"), get_or_empty(result, "custom2")));
    subs.push((String::from_str("{custom3}"), get_or_empty(result, "custom3")));
    let mc = match service_kind(monitor) {
        Option::Some(ServiceKind::MinecraftJava) => true,
        Option::Some(ServiceKind::MinecraftBedrock) => true,
        _ => false,
    };
    if mc {
        let pc = match result.get("playerCount") {
            Option::Some(v) => v.clone(),
            Option::None => get_or_empty(result, "custom1"),
        };
        subs.push((String::from_str("{playerCount}"), pc));
    }
    let base = subs.len();
    let ghost base0 = subs@;
    let n = result.metrics.len();
    let mut i: usize = 0;
    proof {
        assert(result.metrics@.take(0) =~= Seq::<(String, String)>::empty());
        assert(pairs_view(subs@).skip(base as int) =~= extra_pairs(result.metrics@.take(0)));
    }
    while i < n
        invariant
            i <= n == result.metrics@.len(),
            subs@.len() >= base,
            base == base0.len(),
            subs@.take(base as int) == base0,
            pairs_view(subs@).skip(base as int) == extra_pairs(result.metrics@.take(i as int)),
        decreases n - i,
    {
        proof {
            assert(result.metrics@.take(i + 1).drop_last() =~= result.metrics@.take(i as int));
            assert(result.metrics@.take(i + 1).last() == result.metrics@[i as int]);
        }
        let name = &result.metrics[i].0;
        let wk = str_eq(name.as_str(), "latency") || str_eq(name.as_str(), "custom1") || str_eq(
            name.as_str(),
            "custom2",
        ) || str_eq(name.as_str(), "custom3") || str_eq(name.as_str(), "playerCount");
        if !wk {
            let mut pat = String::from_str("{");
            pat.append(name.as_str());
            pat.append("}");
            let ghost prev = subs@;
            subs.push((pat, result.metrics[i].1.clone()));
            proof {
                reveal_strlit("{");
                reveal_strlit("}");
                assert(("{")@ =~= seq!['{']);
                assert(("}")@ =~= seq!['}']);
                assert(subs@.take(base as int) =~= prev.take(base as int));
                assert(pairs_view(subs@) =~= pairs_view(prev).push(
                    (braced(result.metrics@[i as int].0@), result.metrics@[i as int].1@),
                ));
                assert(pairs_view(subs@).skip(base as int) =~= pairs_view(prev).skip(
                    base as int,
                ).push((braced(result.metrics@[i as int].0@), result.metrics@[i as int].1@)));
                assert(pairs_view(subs@).skip(base as int) =~= extra_pairs(
                    result.metrics@.take(i + 1),
                ));
            }
        } else {
            proof {
                assert(extra_pairs(result.metrics@.take(i + 1)) =~= extra_pairs(
                    result.metrics@.take(i as int),
                ));
            }
        }
        i = i + 1;
    }
    proof {
        assert(result.metrics@.take(n as int) =~= result.metrics@);
        assert(subs@[0] == base0[0]);
        assert(subs@[1] == base0[1]);
        assert(subs@[2] == base0[2]);
        if base == 4 {
            assert(subs@[3] == base0[3]);
        }
    }
    subs
}

/// `v` or the empty text.
pub open spec fn or_empty(v: Option<Seq<char>>) -> Seq<char> {
    match v {
        Option::Some(s) => s,
        Option::None => Seq::empty(),
    }
}

} // verus!
