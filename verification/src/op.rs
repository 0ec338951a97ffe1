//! Comparison operators and the type-checked comparison of two values.

use vstd::prelude::*;

use crate::error::{res_view, Error, ErrorView};
use crate::value::{lex_cmp_chars, str_compare, StrOrd, Value, ValueView};

verus! {

/// The supported binary operators for attribute comparison.
#[derive(Clone, Copy, Debug, PartialEq, Eq, Structural)]
pub enum Op {
    Eq,
    Ne,
    Gt,
    Lt,
    Ge,
    Le,
}

impl Op {
    /// The symbol of this operator in the textual policy form.
    pub fn symbol(&self) -> (r: &'static str)
        ensures
            r@ == op_symbol(*self),
    {
        match self {
            Op::Eq => "==",
            Op::Ne => "!=",
            Op::Gt => ">",
            Op::Lt => "<",
            Op::Ge => ">=",
            Op::Le => "<=",
        }
    }
}

/// The textual symbol of each operator.
pub open spec fn op_symbol(op: Op) -> Seq<char> {
    match op {
        Op::Eq => "=="@,
        Op::Ne => "!="@,
        Op::Gt => ">"@,
        Op::Lt => "<"@,
        Op::Ge => ">="@,
        Op::Le => "<="@,
    }
}

/// Equality of two value models of the same kind.
pub open spec fn vals_eq(l: ValueView, r: ValueView) -> bool {
    match (l, r) {
        (ValueView::Str(a), ValueView::Str(b)) => a == b,
        (ValueView::Int(a), ValueView::Int(b)) => a == b,
        (ValueView::Bool(a), ValueView::Bool(b)) => a == b,
        (ValueView::Uuid(a), ValueView::Uuid(b)) => a == b,
        _ => false,
    }
}

/// Three-way order of two value models of the same orderable kind.
pub open spec fn vals_ord(l: ValueView, r: ValueView) -> StrOrd {
    match (l, r) {
        (ValueView::Int(a), ValueView::Int(b)) => if a < b {
            StrOrd::Less
        } else if a == b {
            StrOrd::Equal
        } else {
            StrOrd::Greater
        },
        (ValueView::Str(a), ValueView::Str(b)) => lex_cmp_chars(a, b),
        _ => StrOrd::Equal,
    }
}

/// The type-checked comparison of two value models under an operator.
///
/// Comparing across kinds is a type mismatch under any operator; ordering
/// operators additionally require an orderable kind (integer or string).
pub open spec fn cmp_spec(l: ValueView, r: ValueView, op: Op) -> Result<bool, ErrorView> {
    if l.kind() != r.kind() {
        Err(ErrorView::TypeMismatch { lhs: l.kind(), rhs: r.kind(), op })
    } else {
        match op {
            Op::Eq => Ok(vals_eq(l, r)),
            Op::Ne => Ok(!vals_eq(l, r)),
            _ => if !l.orderable() {
                Err(ErrorView::TypeMismatch { lhs: l.kind(), rhs: r.kind(), op })
            } else {
                match op {
                    Op::Gt => Ok(vals_ord(l, r) == StrOrd::Greater),
                    Op::Lt => Ok(vals_ord(l, r) == StrOrd::Less),
                    Op::Ge => Ok(vals_ord(l, r) != StrOrd::Less),
                    _ => Ok(vals_ord(l, r) != StrOrd::Greater),
                }
            },
        }
    }
}

/// Comparing two values of different kinds is a type mismatch under every
/// operator, never a silent boolean.
pub proof fn lemma_cross_kind_is_mismatch(l: ValueView, r: ValueView, op: Op)
    requires
        l.kind() != r.kind(),
    ensures
        cmp_spec(l, r, op) == Err::<bool, ErrorView>(ErrorView::TypeMismatch {
            lhs: l.kind(),
            rhs: r.kind(),
            op,
        }),
{
}

/// Equality of two values of the same kind.
fn values_equal(l: &Value, r: &Value) -> (b: bool)
    requires
        l@.kind() == r@.kind(),
    ensures
        b == vals_eq(l@, r@),
{
    match l {
        Value::Str(a) => match r {
            Value::Str(b) => crate::value::str_eq(a.as_str(), b.as_str()),
            _ => unreached(),
        },
        Value::Int(a) => match r {
            Value::Int(b) => *a == *b,
            _ => unreached(),
        },
        Value::Bool(a) => match r {
            Value::Bool(b) => *a == *b,
            _ => unreached(),
        },
        Value::Uuid(a) => match r {
            Value::Uuid(b) => *a == *b,
            _ => unreached(),
        },
    }
}

/// Three-way order of two values of the same orderable kind.
fn values_ord(l: &Value, r: &Value) -> (o: StrOrd)
    requires
        l@.kind() == r@.kind(),
        l@.orderable(),
    ensures
        o == vals_ord(l@, r@),
{
    match l {
        Value::Int(a) => match r {
            Value::Int(b) => if *a < *b {
                StrOrd::Less
            } else if *a == *b {
                StrOrd::Equal
            } else {
                StrOrd::Greater
            },
            _ => unreached(),
        },
        Value::Str(a) => match r {
            Value::Str(b) => str_compare(a.as_str(), b.as_str()),
            _ => unreached(),
        },
        _ => unreached(),
    }
}

/// Evaluates a binary comparison between two values under an operator.
pub fn cmp(l: &Value, r: &Value, op: &Op) -> (res: Result<bool, Error>)
    ensures
        res_view(res) == cmp_spec(l@, r@, *op),
{
    let lk = l.kind_tag();
    let rk = r.kind_tag();
    if lk != rk {
        return Err(Error::TypeMismatch { lhs: lk, rhs: rk, op: *op });
    }
    match op {
        Op::Eq => Ok(values_equal(l, r)),
        Op::Ne => Ok(!values_equal(l, r)),
        _ => {
            let orderable = match l {
                Value::Int(_) => true,
                Value::Str(_) => true,
                _ => false,
            };
            if !orderable {
                return Err(Error::TypeMismatch { lhs: lk, rhs: rk, op: *op });
            }
            let o = values_ord(l, r);
            match op {
                Op::Gt => Ok(o == StrOrd::Greater),
                Op::Lt => Ok(o == StrOrd::Less),
                Op::Ge => Ok(o != StrOrd::Less),
                _ => Ok(o != StrOrd::Greater),
            }
        },
    }
}

} // verus!
