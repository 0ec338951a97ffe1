//! The policy data model: an AND of OR-groups of attribute comparisons.

use vstd::prelude::*;

use crate::op::Op;
use crate::value::{Value, ValueView};

verus! {

/// One operand of a clause: a subject field, an object field, or a literal.
#[derive(Debug)]
pub enum SideRule {
    Subject(String),
    Object(String),
    Literal(Value),
}

/// The mathematical model of a [`SideRule`].
pub enum SideRuleView {
    Subject(Seq<char>),
    Object(Seq<char>),
    Literal(ValueView),
}

impl View for SideRule {
    type V = SideRuleView;

    open spec fn view(&self) -> SideRuleView {
        match self {
            SideRule::Subject(f) => SideRuleView::Subject(f@),
            SideRule::Object(f) => SideRuleView::Object(f@),
            SideRule::Literal(v) => SideRuleView::Literal(v@),
        }
    }
}

impl DeepView for SideRule {
    type V = SideRuleView;

    open spec fn deep_view(&self) -> SideRuleView {
        self.view()
    }
}

/// One clause: `<left> <operator> <right>`.
#[derive(Debug)]
pub struct Rule {
    pub left: SideRule,
    pub operator: Op,
    pub right: SideRule,
}

/// The mathematical model of a [`Rule`].
pub struct RuleView {
    pub left: SideRuleView,
    pub operator: Op,
    pub right: SideRuleView,
}

impl View for Rule {
    type V = RuleView;

    open spec fn view(&self) -> RuleView {
        RuleView { left: self.left@, operator: self.operator, right: self.right@ }
    }
}

impl DeepView for Rule {
    type V = RuleView;

    open spec fn deep_view(&self) -> RuleView {
        self.view()
    }
}

/// A policy: an ordered sequence of OR-groups, each an ordered sequence of
/// clauses. The policy passes exactly when every group has a passing clause.
#[derive(Debug)]
pub struct Rules(pub Vec<Vec<Rule>>);

impl View for Rules {
    type V = Seq<Seq<RuleView>>;

    open spec fn view(&self) -> Seq<Seq<RuleView>> {
        self.0.deep_view()
    }
}

/// Whether a clause model mentions an object field on either side.
pub open spec fn uses_object_spec(r: RuleView) -> bool {
    (r.left is Object) || (r.right is Object)
}

/// Whether a clause mentions an object field on either side.
pub fn clause_uses_object(c: &Rule) -> (r: bool)
    ensures
        r == uses_object_spec(c@),
{
    let left_uses = match &c.left {
        SideRule::Object(_) => true,
        _ => false,
    };
    let right_uses = match &c.right {
        SideRule::Object(_) => true,
        _ => false,
    };
    left_uses || right_uses
}

} // verus!
