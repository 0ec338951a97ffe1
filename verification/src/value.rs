//! Attribute values and their comparison order.
//!
//! A `Value` is one attribute of an entity. Ordering operators are defined
//! only between two values of the same kind, and only for the kinds that
//! support ordering (integers and strings, compared lexicographically by
//! character).

use vstd::prelude::*;

verus! {

/// The kind tag of a [`Value`], used to detect cross-kind comparisons.
#[derive(Clone, Copy, Debug, PartialEq, Eq, Structural)]
pub enum ValueKind {
    Str,
    Int,
    Bool,
    Uuid,
}

/// A dynamically-typed attribute value.
///
/// Identifiers (UUIDs) are carried as their 128-bit integer form.
#[derive(Debug)]
pub enum Value {
    Str(String),
    Int(i64),
    Bool(bool),
    Uuid(u128),
}

/// The mathematical model of a [`Value`].
pub enum ValueView {
    Str(Seq<char>),
    Int(int),
    Bool(bool),
    Uuid(int),
}

impl View for Value {
    type V = ValueView;

    open spec fn view(&self) -> ValueView {
        match self {
            Value::Str(s) => ValueView::Str(s@),
            Value::Int(i) => ValueView::Int(*i as int),
            Value::Bool(b) => ValueView::Bool(*b),
            Value::Uuid(u) => ValueView::Uuid(*u as int),
        }
    }
}

impl ValueView {
    /// The kind tag of a value model.
    pub open spec fn kind(self) -> ValueKind {
        match self {
            ValueView::Str(_) => ValueKind::Str,
            ValueView::Int(_) => ValueKind::Int,
            ValueView::Bool(_) => ValueKind::Bool,
            ValueView::Uuid(_) => ValueKind::Uuid,
        }
    }

    /// Whether ordering operators apply to this kind of value.
    pub open spec fn orderable(self) -> bool {
        match self {
            ValueView::Str(_) => true,
            ValueView::Int(_) => true,
            ValueView::Bool(_) => false,
            ValueView::Uuid(_) => false,
        }
    }
}

/// The display label of each value kind.
pub open spec fn kind_label(k: ValueKind) -> Seq<char> {
    match k {
        ValueKind::Str => "str"@,
        ValueKind::Int => "int"@,
        ValueKind::Bool => "bool"@,
        ValueKind::Uuid => "uuid"@,
    }
}

impl Value {
    /// The kind label of this value: `"str"`, `"int"`, `"bool"` or `"uuid"`.
    pub fn kind(&self) -> (r: &'static str)
        ensures
            r@ == kind_label(self@.kind()),
    {
        match self {
            Value::Str(_) => "str",
            Value::Int(_) => "int",
            Value::Bool(_) => "bool",
            Value::Uuid(_) => "uuid",
        }
    }

    /// The kind tag of this value.
    pub fn kind_tag(&self) -> (k: ValueKind)
        ensures
            k == self@.kind(),
    {
        match self {
            Value::Str(_) => ValueKind::Str,
            Value::Int(_) => ValueKind::Int,
            Value::Bool(_) => ValueKind::Bool,
            Value::Uuid(_) => ValueKind::Uuid,
        }
    }
}

impl Clone for Value {
    /// Clones the value; the copy is equal to the original.
    fn clone(&self) -> (r: Self)
        ensures
            r == *self,
    {
        match self {
            Value::Str(s) => Value::Str(s.clone()),
            Value::Int(i) => Value::Int(*i),
            Value::Bool(b) => Value::Bool(*b),
            Value::Uuid(u) => Value::Uuid(*u),
        }
    }
}

/// Outcome of a three-way comparison.
#[derive(Clone, Copy, Debug, PartialEq, Eq, Structural)]
pub enum StrOrd {
    Less,
    Equal,
    Greater,
}

/// Lexicographic order on character sequences, by code point. This is the
/// order Rust's own `str` ordering induces, since UTF-8 preserves it.
pub open spec fn lex_cmp_chars(a: Seq<char>, b: Seq<char>) -> StrOrd
    decreases a.len(),
{
    if a.len() == 0 && b.len() == 0 {
        StrOrd::Equal
    } else if a.len() == 0 {
        StrOrd::Less
    } else if b.len() == 0 {
        StrOrd::Greater
    } else if a[0] == b[0] {
        lex_cmp_chars(a.skip(1), b.skip(1))
    } else if (a[0] as u32) < (b[0] as u32) {
        StrOrd::Less
    } else {
        StrOrd::Greater
    }
}

/// Two character sequences compare `Equal` exactly when they are equal.
pub proof fn lemma_lex_cmp_equal(a: Seq<char>, b: Seq<char>)
    ensures
        lex_cmp_chars(a, b) == StrOrd::Equal <==> a == b,
    decreases a.len(),
{
    if a.len() == 0 && b.len() == 0 {
        assert(a =~= b);
    } else if a.len() == 0 || b.len() == 0 {
        assert(a != b);
    } else if a[0] == b[0] {
        lemma_lex_cmp_equal(a.skip(1), b.skip(1));
        if lex_cmp_chars(a, b) == StrOrd::Equal {
            assert(a.skip(1) == b.skip(1));
            assert forall|i: int| 0 <= i < a.len() implies a[i] == b[i] by {
                if i > 0 {
                    assert(a[i] == a.skip(1)[i - 1]);
                    assert(b[i] == b.skip(1)[i - 1]);
                }
            }
            assert(a =~= b);
        } else {
            if a == b {
                assert(a.skip(1) =~= b.skip(1));
            }
        }
    } else {
        assert(a != b);
    }
}

/// Three-way lexicographic comparison of two strings, by character.
pub fn str_compare(a: &str, b: &str) -> (r: StrOrd)
    ensures
        r == lex_cmp_chars(a@, b@),
{
    let a_len = a.unicode_len();
    let b_len = b.unicode_len();
    let mut i: usize = 0;
    proof {
        assert(a@.skip(0) =~= a@);
        assert(b@.skip(0) =~= b@);
    }
    loop
        invariant
            i <= a_len,
            i <= b_len,
            a_len == a@.len(),
            b_len == b@.len(),
            lex_cmp_chars(a@, b@) == lex_cmp_chars(a@.skip(i as int), b@.skip(i as int)),
        decreases a_len - i,
    {
        if i == a_len && i == b_len {
            return StrOrd::Equal;
        } else if i == a_len {
            return StrOrd::Less;
        } else if i == b_len {
            return StrOrd::Greater;
        }
        let ca = a.get_char(i);
        let cb = b.get_char(i);
        if ca != cb {
            if (ca as u32) < (cb as u32) {
                return StrOrd::Less;
            } else {
                return StrOrd::Greater;
            }
        }
        proof {
            assert(a@.skip(i as int).skip(1) =~= a@.skip(i + 1));
            assert(b@.skip(i as int).skip(1) =~= b@.skip(i + 1));
        }
        i = i + 1;
    }
}

/// Equality of two strings, by character.
pub fn str_eq(a: &str, b: &str) -> (r: bool)
    ensures
        r == (a@ == b@),
{
    let c = str_compare(a, b);
    proof {
        lemma_lex_cmp_equal(a@, b@);
    }
    match c {
        StrOrd::Equal => true,
        _ => false,
    }
}

} // verus!
