//! The policy evaluator.
//!
//! Walks an AND of OR-groups with short-circuit semantics: a group passes as
//! soon as one clause passes (later clauses are not evaluated), and the
//! policy fails as soon as one group fails (later groups are not evaluated).
//! An error in the clause currently needed propagates; it never converts to
//! a boolean.

use vstd::prelude::*;

use crate::entity::{Attributes, Entity};
use crate::error::{res_view, Error, ErrorView};
use crate::op::{cmp, cmp_spec};
use crate::parser::parse_rules_spec;
use crate::rules::{clause_uses_object, Rule, RuleView, Rules, SideRule, SideRuleView};
use crate::value::{Value, ValueView};

verus! {

/// Resolves an operand model against the two attribute maps: a subject or
/// object field is looked up in its map and is an error when absent; a
/// literal resolves to itself.
pub open spec fn resolve_spec(
    s: Map<Seq<char>, ValueView>,
    o: Map<Seq<char>, ValueView>,
    sr: SideRuleView,
) -> Result<ValueView, ErrorView> {
    match sr {
        SideRuleView::Subject(f) => if s.contains_key(f) {
            Ok(s[f])
        } else {
            Err(ErrorView::UnknownField(f))
        },
        SideRuleView::Object(f) => if o.contains_key(f) {
            Ok(o[f])
        } else {
            Err(ErrorView::UnknownField(f))
        },
        SideRuleView::Literal(v) => Ok(v),
    }
}

/// Resolves an operand model leniently: a missing field is the boolean
/// `false` rather than an error.
pub open spec fn resolve_lenient_spec(
    s: Map<Seq<char>, ValueView>,
    o: Map<Seq<char>, ValueView>,
    sr: SideRuleView,
) -> ValueView {
    match sr {
        SideRuleView::Subject(f) => if s.contains_key(f) {
            s[f]
        } else {
            ValueView::Bool(false)
        },
        SideRuleView::Object(f) => if o.contains_key(f) {
            o[f]
        } else {
            ValueView::Bool(false)
        },
        SideRuleView::Literal(v) => v,
    }
}

/// Evaluates one clause model: resolve the left operand, then the right,
/// then apply the type-checked comparison.
pub open spec fn eval_clause_spec(
    s: Map<Seq<char>, ValueView>,
    o: Map<Seq<char>, ValueView>,
    r: RuleView,
) -> Result<bool, ErrorView> {
    match resolve_spec(s, o, r.left) {
        Err(e) => Err(e),
        Ok(l) => match resolve_spec(s, o, r.right) {
            Err(e) => Err(e),
            Ok(rv) => cmp_spec(l, rv, r.operator),
        },
    }
}

/// Evaluates an OR-group model from clause `i` on. The group passes at the
/// first passing clause; an exhausted group fails; an error in the clause
/// currently needed propagates. With `skip_object`, clauses that mention an
/// object field are passed over entirely.
pub open spec fn eval_group_from(
    s: Map<Seq<char>, ValueView>,
    o: Map<Seq<char>, ValueView>,
    g: Seq<RuleView>,
    i: int,
    skip_object: bool,
) -> Result<bool, ErrorView>
    decreases g.len() - i,
{
    if i < 0 || i >= g.len() {
        Ok(false)
    } else if skip_object && crate::rules::uses_object_spec(g[i]) {
        eval_group_from(s, o, g, i + 1, skip_object)
    } else {
        match eval_clause_spec(s, o, g[i]) {
            Err(e) => Err(e),
            Ok(true) => Ok(true),
            Ok(false) => eval_group_from(s, o, g, i + 1, skip_object),
        }
    }
}

/// Evaluates a policy model from group `i` on. The policy passes when every
/// group passes, fails at the first failing group, and propagates the first
/// error; later groups are not evaluated.
pub open spec fn eval_rules_from(
    s: Map<Seq<char>, ValueView>,
    o: Map<Seq<char>, ValueView>,
    gs: Seq<Seq<RuleView>>,
    i: int,
    skip_object: bool,
) -> Result<bool, ErrorView>
    decreases gs.len() - i,
{
    if i < 0 || i >= gs.len() {
        Ok(true)
    } else {
        match eval_group_from(s, o, gs[i], 0, skip_object) {
            Err(e) => Err(e),
            Ok(false) => Ok(false),
            Ok(true) => eval_rules_from(s, o, gs, i + 1, skip_object),
        }
    }
}

/// The strict evaluation of a whole policy model: AND of ORs, with missing
/// fields an error.
pub open spec fn eval_rules_spec(
    s: Map<Seq<char>, ValueView>,
    o: Map<Seq<char>, ValueView>,
    gs: Seq<Seq<RuleView>>,
) -> Result<bool, ErrorView> {
    eval_rules_from(s, o, gs, 0, false)
}

/// A policy with no groups passes vacuously, whatever the entities hold.
pub proof fn lemma_empty_policy_allows(s: Map<Seq<char>, ValueView>, o: Map<Seq<char>, ValueView>)
    ensures
        eval_rules_spec(s, o, Seq::empty()) == Ok::<bool, ErrorView>(true),
{
}

/// A policy whose first group has no clauses is denied, whatever the
/// entities hold and whatever the remaining groups say: a group with no
/// clauses can never be satisfied.
pub proof fn lemma_empty_group_denies(
    s: Map<Seq<char>, ValueView>,
    o: Map<Seq<char>, ValueView>,
    gs: Seq<Seq<RuleView>>,
)
    requires
        gs.len() > 0,
        gs[0].len() == 0,
    ensures
        eval_rules_spec(s, o, gs) == Ok::<bool, ErrorView>(false),
{
}

/// Short-circuit OR: when the first clause of a group passes, the group
/// passes, whatever the later clauses are — a later clause that would
/// error is never evaluated.
pub proof fn lemma_or_short_circuit(
    s: Map<Seq<char>, ValueView>,
    o: Map<Seq<char>, ValueView>,
    g: Seq<RuleView>,
)
    requires
        g.len() > 0,
        eval_clause_spec(s, o, g[0]) == Ok::<bool, ErrorView>(true),
    ensures
        eval_group_from(s, o, g, 0, false) == Ok::<bool, ErrorView>(true),
{
}

/// When every group before `i` passes, evaluating from the start is
/// evaluating from `i`.
proof fn lemma_rules_prefix_passes(
    s: Map<Seq<char>, ValueView>,
    o: Map<Seq<char>, ValueView>,
    gs: Seq<Seq<RuleView>>,
    i: int,
    skip_object: bool,
)
    requires
        0 <= i <= gs.len(),
        forall|j: int|
            0 <= j < i ==> #[trigger] eval_group_from(s, o, gs[j], 0, skip_object) == Ok::<
                bool,
                ErrorView,
            >(true),
    ensures
        eval_rules_from(s, o, gs, 0, skip_object) == eval_rules_from(s, o, gs, i, skip_object),
    decreases i,
{
    if i > 0 {
        lemma_rules_prefix_passes(s, o, gs, i - 1, skip_object);
        assert(eval_group_from(s, o, gs[i - 1], 0, skip_object) == Ok::<bool, ErrorView>(true));
    }
}

/// Short-circuit AND: when the groups before `i` pass and group `i` fails,
/// the whole policy is denied, whatever the later groups are — a later
/// group that would error is never evaluated.
pub proof fn lemma_and_short_circuit(
    s: Map<Seq<char>, ValueView>,
    o: Map<Seq<char>, ValueView>,
    gs: Seq<Seq<RuleView>>,
    i: int,
)
    requires
        0 <= i < gs.len(),
        forall|j: int|
            0 <= j < i ==> #[trigger] eval_group_from(s, o, gs[j], 0, false) == Ok::<
                bool,
                ErrorView,
            >(true),
        eval_group_from(s, o, gs[i], 0, false) == Ok::<bool, ErrorView>(false),
    ensures
        eval_rules_spec(s, o, gs) == Ok::<bool, ErrorView>(false),
{
    lemma_rules_prefix_passes(s, o, gs, i, false);
}

/// Looking up a missing field through a `Subject` or `Object` operand is an
/// `UnknownField` error, never a silent boolean.
pub proof fn lemma_missing_field_is_error(
    s: Map<Seq<char>, ValueView>,
    o: Map<Seq<char>, ValueView>,
    sr: SideRuleView,
)
    requires
        (sr matches SideRuleView::Subject(f) && !s.contains_key(f)) || (sr
            matches SideRuleView::Object(f) && !o.contains_key(f)),
    ensures
        resolve_spec(s, o, sr) matches Err(e) && e is UnknownField,
{
}

/// Resolves an operand against the subject and object maps. A `Subject` or
/// `Object` operand names a field of its map and is `UnknownField` when the
/// field is absent; a `Literal` resolves to its value and never fails.
pub fn which_to_evaluate<'a>(
    subject: &'a Attributes,
    object: &'a Attributes,
    side_rule: &'a SideRule,
) -> (r: Result<&'a Value, Error>)
    ensures
        res_view(r) == resolve_spec(subject@, object@, side_rule@),
{
    match side_rule {
        SideRule::Subject(field_name) => match subject.get(field_name.as_str()) {
            Some(v) => Ok(v),
            None => Err(Error::UnknownField(field_name.clone())),
        },
        SideRule::Object(field_name) => match object.get(field_name.as_str()) {
            Some(v) => Ok(v),
            None => Err(Error::UnknownField(field_name.clone())),
        },
        SideRule::Literal(value) => Ok(value),
    }
}

/// Resolves an operand leniently: a missing field is the value `false`, so
/// the surrounding clause compares rather than errors. This is the
/// documented alternative to the strict [`which_to_evaluate`]; the two are
/// never mixed in one evaluation.
pub fn which_to_evaluate_lenient(
    subject: &Attributes,
    object: &Attributes,
    side_rule: &SideRule,
) -> (r: Value)
    ensures
        r@ == resolve_lenient_spec(subject@, object@, side_rule@),
{
    match side_rule {
        SideRule::Subject(field_name) => match subject.get(field_name.as_str()) {
            Some(v) => v.clone(),
            None => Value::Bool(false),
        },
        SideRule::Object(field_name) => match object.get(field_name.as_str()) {
            Some(v) => v.clone(),
            None => Value::Bool(false),
        },
        SideRule::Literal(value) => value.clone(),
    }
}

/// Evaluates one clause against the two attribute maps.
fn eval_clause(subject: &Attributes, object: &Attributes, rule: &Rule) -> (r: Result<bool, Error>)
    ensures
        res_view(r) == eval_clause_spec(subject@, object@, rule@),
{
    let left = match which_to_evaluate(subject, object, &rule.left) {
        Ok(v) => v,
        Err(e) => {
            return Err(e);
        },
    };
    let right = match which_to_evaluate(subject, object, &rule.right) {
        Ok(v) => v,
        Err(e) => {
            return Err(e);
        },
    };
    cmp(left, right, &rule.operator)
}

/// Evaluates one OR-group with short-circuit: done at the first passing
/// clause; clauses after it are not evaluated.
fn eval_group(
    subject: &Attributes,
    object: &Attributes,
    group: &Vec<Rule>,
    skip_object: bool,
) -> (r: Result<bool, Error>)
    ensures
        res_view(r) == eval_group_from(subject@, object@, group.deep_view(), 0, skip_object),
{
    let ghost g = group.deep_view();
    let mut i: usize = 0;
    while i < group.len()
        invariant
            i <= group.len(),
            g == group.deep_view(),
            g.len() == group.len(),
            eval_group_from(subject@, object@, g, 0, skip_object) == eval_group_from(
                subject@,
                object@,
                g,
                i as int,
                skip_object,
            ),
        decreases group.len() - i,
    {
        let rule = &group[i];
        proof {
            assert(g[i as int] == rule@);
        }
        if skip_object && clause_uses_object(rule) {
            i = i + 1;
            continue;
        }
        match eval_clause(subject, object, rule) {
            Err(e) => {
                return Err(e);
            },
            Ok(true) => {
                return Ok(true);
            },
            Ok(false) => {},
        }
        i = i + 1;
    }
    Ok(false)
}

/// Evaluates a policy against two already-projected attribute maps, with
/// AND/OR short-circuit; with `skip_object`, every clause that mentions an
/// object field is passed over.
fn eval_rules_maps(
    subject: &Attributes,
    object: &Attributes,
    rules: &Rules,
    skip_object: bool,
) -> (r: Result<bool, Error>)
    ensures
        res_view(r) == eval_rules_from(subject@, object@, rules@, 0, skip_object),
{
    let ghost gs = rules@;
    let mut i: usize = 0;
    while i < rules.0.len()
        invariant
            i <= rules.0.len(),
            gs == rules@,
            gs.len() == rules.0.len(),
            eval_rules_from(subject@, object@, gs, 0, skip_object) == eval_rules_from(
                subject@,
                object@,
                gs,
                i as int,
                skip_object,
            ),
        decreases rules.0.len() - i,
    {
        let group = &rules.0[i];
        proof {
            assert(gs[i as int] == group.deep_view());
        }
        match eval_group(subject, object, group, skip_object) {
            Err(e) => {
                return Err(e);
            },
            Ok(false) => {
                return Ok(false);
            },
            Ok(true) => {},
        }
        i = i + 1;
    }
    Ok(true)
}

/// Evaluates a policy against a subject and an object entity.
///
/// Both entities are projected into attribute maps once; the policy then
/// passes exactly when every OR-group has a passing clause. A projection
/// failure, a missing field, or a cross-kind comparison surfaces as the
/// corresponding error; evaluation never continues past an error.
pub fn evaluate<S: Entity, O: Entity>(subject: &S, object: &O, rules: &Rules) -> (r: Result<
    bool,
    Error,
>)
    ensures
        subject.serializable() && object.serializable() ==> res_view(r) == eval_rules_spec(
            subject.model(),
            object.model(),
            rules@,
        ),
        !subject.serializable() ==> (r matches Err(e) && e@ is SerializationError),
        subject.serializable() && !object.serializable() ==> (r matches Err(e)
            && e@ is SerializationError),
{
    let subject_attrs = match subject.to_attributes() {
        Ok(a) => a,
        Err(e) => {
            return Err(e);
        },
    };
    let object_attrs = match object.to_attributes() {
        Ok(a) => a,
        Err(e) => {
            return Err(e);
        },
    };
    eval_rules_maps(&subject_attrs, &object_attrs, rules, false)
}

/// Evaluates a textual policy against a subject and an optional object.
///
/// The policy string is parsed first; a malformed policy is a parse error.
/// With no object supplied, every clause that mentions `object.*` is
/// silently skipped and the remaining clauses see an empty object — the
/// looser, explicitly chosen mode for type-level checks. With an object
/// supplied, evaluation is the strict kind of [`evaluate`].
pub fn evaluate_rules<S: Entity, O: Entity>(rules: &str, sub: &S, obj: Option<&O>) -> (r: Result<
    bool,
    Error,
>)
    ensures
        (match parse_rules_spec(rules@) {
            Err(pe) => r matches Err(e) && e@ == pe,
            Ok(gs) => if !sub.serializable() {
                r matches Err(e) && e@ is SerializationError
            } else {
                match obj {
                    Some(o) => if o.serializable() {
                        res_view(r) == eval_rules_from(sub.model(), o.model(), gs, 0, false)
                    } else {
                        r matches Err(e) && e@ is SerializationError
                    },
                    None => res_view(r) == eval_rules_from(
                        sub.model(),
                        Map::empty(),
                        gs,
                        0,
                        true,
                    ),
                }
            },
        }),
{
    let parsed = match crate::parser::parse_rules(rules) {
        Ok(p) => p,
        Err(e) => {
            return Err(e);
        },
    };
    let sub_attrs = match sub.to_attributes() {
        Ok(a) => a,
        Err(e) => {
            return Err(e);
        },
    };
    match obj {
        Some(o) => {
            let obj_attrs = match o.to_attributes() {
                Ok(a) => a,
                Err(e) => {
                    return Err(e);
                },
            };
            eval_rules_maps(&sub_attrs, &obj_attrs, &parsed, false)
        },
        None => {
            let obj_attrs = Attributes::new();
            eval_rules_maps(&sub_attrs, &obj_attrs, &parsed, true)
        },
    }
}

} // verus!
