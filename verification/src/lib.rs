//! Attribute-based access-control (ABAC) decision engine.
//!
//! A policy is an AND of OR-groups of attribute comparisons. Given a subject
//! entity and an optional object entity, [`evaluate`] walks the policy with
//! short-circuit semantics and returns an allow/deny boolean or a structured
//! [`Error`]. An [`Engine`] adds a type-erased adapter/provider registry so a
//! resource entity can be materialized by name at evaluation time.

mod engine;
mod entity;
mod error;
mod evaluator;
mod op;
mod parser;
mod rules;
mod value;

pub use engine::{Engine, EvaluateEntity};
pub use entity::{Attributes, EmptyEntity, Entity, NullEntity};
pub use error::{res_view, Error, ErrorView};
pub use evaluator::{
    eval_clause_spec, eval_group_from, eval_rules_from, eval_rules_spec, evaluate,
    evaluate_rules, lemma_and_short_circuit, lemma_empty_group_denies, lemma_empty_policy_allows,
    lemma_missing_field_is_error, lemma_or_short_circuit, resolve_lenient_spec, resolve_spec,
    which_to_evaluate, which_to_evaluate_lenient,
};
pub use parser::{
    parse_clause, parse_clause_spec, parse_clauses, parse_clauses_spec, parse_group,
    parse_group_spec, parse_int_spec, parse_int_str, parse_operand, parse_operand_spec,
    parse_rules, parse_rules_spec, trim_spec, trim_str,
};
pub use op::{cmp, cmp_spec, lemma_cross_kind_is_mismatch, op_symbol, vals_eq, vals_ord, Op};
pub use rules::{clause_uses_object, uses_object_spec, Rule, RuleView, Rules, SideRule, SideRuleView};
pub use value::{kind_label, lex_cmp_chars, lemma_lex_cmp_equal, str_compare, str_eq, StrOrd, Value, ValueKind, ValueView};
