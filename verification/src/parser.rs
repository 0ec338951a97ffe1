//! Parser for the textual policy form.
//!
//! A policy is a comma-separated list of bracketed OR-groups, each a
//! comma-separated list of clauses `operand op operand`, where an operand
//! names a subject field, an object field, a quoted string literal or an
//! integer literal. Whitespace here is the simple kind: space, tab,
//! carriage return and line feed.

use vstd::prelude::*;

use crate::error::{res_view, Error, ErrorView};
use crate::op::Op;
use crate::rules::{Rule, RuleView, Rules, SideRule, SideRuleView};
use crate::value::{Value, ValueView};

verus! {

/// Whitespace as this parser understands it.
pub open spec fn is_space(c: char) -> bool {
    c == ' ' || c == '\t' || c == '\n' || c == '\r'
}

/// `s` without its leading whitespace.
pub open spec fn trim_start_spec(s: Seq<char>) -> Seq<char>
    decreases s.len(),
{
    if s.len() > 0 && is_space(s[0]) {
        trim_start_spec(s.skip(1))
    } else {
        s
    }
}

/// `s` without its trailing whitespace.
pub open spec fn trim_end_spec(s: Seq<char>) -> Seq<char>
    decreases s.len(),
{
    if s.len() > 0 && is_space(s.last()) {
        trim_end_spec(s.drop_last())
    } else {
        s
    }
}

/// `s` without leading or trailing whitespace.
pub open spec fn trim_spec(s: Seq<char>) -> Seq<char> {
    trim_end_spec(trim_start_spec(s))
}

/// `s` without its leading `[` brackets.
pub open spec fn strip_open_spec(s: Seq<char>) -> Seq<char>
    decreases s.len(),
{
    if s.len() > 0 && s[0] == '[' {
        strip_open_spec(s.skip(1))
    } else {
        s
    }
}

/// `s` without its trailing `]` brackets.
pub open spec fn strip_close_spec(s: Seq<char>) -> Seq<char>
    decreases s.len(),
{
    if s.len() > 0 && s.last() == ']' {
        strip_close_spec(s.drop_last())
    } else {
        s
    }
}

/// The first position at or after `i` where `c` occurs in `s`.
pub open spec fn find1_from(s: Seq<char>, c: char, i: int) -> Option<int>
    decreases s.len() - i,
{
    if i < 0 || i >= s.len() {
        None
    } else if s[i] == c {
        Some(i)
    } else {
        find1_from(s, c, i + 1)
    }
}

/// The first position at or after `i` where `c0` immediately followed by
/// `c1` occurs in `s`.
pub open spec fn find2_from(s: Seq<char>, c0: char, c1: char, i: int) -> Option<int>
    decreases s.len() - i,
{
    if i < 0 || i + 1 >= s.len() {
        None
    } else if s[i] == c0 && s[i + 1] == c1 {
        Some(i)
    } else {
        find2_from(s, c0, c1, i + 1)
    }
}

/// Whether `p` is a prefix of `s`.
pub open spec fn prefix_of(p: Seq<char>, s: Seq<char>) -> bool {
    p.len() <= s.len() && s.take(p.len() as int) == p
}

/// Whether the character at position `i` of `s` is simple whitespace.
fn space_at(s: &str, i: usize) -> (r: bool)
    requires
        i < s@.len(),
    ensures
        r == is_space(s@[i as int]),
{
    let c = s.get_char(i);
    c == ' ' || c == '\t' || c == '\n' || c == '\r'
}

/// Whether the character at position `i` of `s` is `c`.
fn char_at_is(s: &str, i: usize, c: char) -> (r: bool)
    requires
        i < s@.len(),
    ensures
        r == (s@[i as int] == c),
{
    s.get_char(i) == c
}

/// Trims simple whitespace from both ends of a string.
pub fn trim_str<'a>(s: &'a str) -> (r: &'a str)
    ensures
        r@ == trim_spec(s@),
{
    let len = s.unicode_len();
    let mut lo: usize = 0;
    proof {
        assert(s@.skip(0) =~= s@);
    }
    while lo < len && space_at(s, lo)
        invariant
            lo <= len,
            len == s@.len(),
            trim_start_spec(s@) == trim_start_spec(s@.skip(lo as int)),
        decreases len - lo,
    {
        proof {
            assert(s@.skip(lo as int).skip(1) =~= s@.skip(lo + 1));
        }
        lo = lo + 1;
    }
    proof {
        if lo == len {
            assert(s@.skip(lo as int) =~= Seq::<char>::empty());
        }
        assert(trim_start_spec(s@) == s@.skip(lo as int));
    }
    // now trim the end of s[lo..]
    let mut hi: usize = len;
    proof {
        assert(s@.skip(lo as int).take((len - lo) as int) =~= s@.skip(lo as int));
    }
    while hi > lo && space_at(s, hi - 1)
        invariant
            lo <= hi <= len,
            len == s@.len(),
            trim_start_spec(s@) == s@.skip(lo as int),
            trim_end_spec(s@.skip(lo as int)) == trim_end_spec(
                s@.skip(lo as int).take((hi - lo) as int),
            ),
        decreases hi,
    {
        proof {
            let t = s@.skip(lo as int);
            assert(t.take((hi - lo) as int).last() == s@[hi - 1]);
            assert(t.take((hi - lo) as int).drop_last() =~= t.take((hi - 1 - lo) as int));
        }
        hi = hi - 1;
    }
    proof {
        let t = s@.skip(lo as int);
        if hi == lo {
            assert(t.take(0) =~= Seq::<char>::empty());
        } else {
            assert(t.take((hi - lo) as int).last() == s@[hi - 1]);
        }
        assert(trim_end_spec(t) == t.take((hi - lo) as int));
        assert(t.take((hi - lo) as int) =~= s@.subrange(lo as int, hi as int));
    }
    s.substring_char(lo, hi)
}

/// Strips the leading `[` brackets and trailing `]` brackets of a string.
pub fn strip_brackets<'a>(s: &'a str) -> (r: &'a str)
    ensures
        r@ == strip_close_spec(strip_open_spec(s@)),
{
    let len = s.unicode_len();
    let mut lo: usize = 0;
    proof {
        assert(s@.skip(0) =~= s@);
    }
    while lo < len && char_at_is(s, lo, '[')
        invariant
            lo <= len,
            len == s@.len(),
            strip_open_spec(s@) == strip_open_spec(s@.skip(lo as int)),
        decreases len - lo,
    {
        proof {
            assert(s@.skip(lo as int).skip(1) =~= s@.skip(lo + 1));
        }
        lo = lo + 1;
    }
    proof {
        if lo == len {
            assert(s@.skip(lo as int) =~= Seq::<char>::empty());
        }
        assert(strip_open_spec(s@) == s@.skip(lo as int));
    }
    let mut hi: usize = len;
    proof {
        assert(s@.skip(lo as int).take((len - lo) as int) =~= s@.skip(lo as int));
    }
    while hi > lo && char_at_is(s, hi - 1, ']')
        invariant
            lo <= hi <= len,
            len == s@.len(),
            strip_open_spec(s@) == s@.skip(lo as int),
            strip_close_spec(s@.skip(lo as int)) == strip_close_spec(
                s@.skip(lo as int).take((hi - lo) as int),
            ),
        decreases hi,
    {
        proof {
            let t = s@.skip(lo as int);
            assert(t.take((hi - lo) as int).last() == s@[hi - 1]);
            assert(t.take((hi - lo) as int).drop_last() =~= t.take((hi - 1 - lo) as int));
        }
        hi = hi - 1;
    }
    proof {
        let t = s@.skip(lo as int);
        if hi == lo {
            assert(t.take(0) =~= Seq::<char>::empty());
        } else {
            assert(t.take((hi - lo) as int).last() == s@[hi - 1]);
        }
        assert(strip_close_spec(t) == t.take((hi - lo) as int));
        assert(t.take((hi - lo) as int) =~= s@.subrange(lo as int, hi as int));
    }
    s.substring_char(lo, hi)
}

/// Finds the first occurrence of `c` in `s`.
pub fn find_char(s: &str, c: char) -> (r: Option<usize>)
    ensures
        match r {
            Some(j) => find1_from(s@, c, 0) == Some(j as int) && j < s@.len(),
            None => find1_from(s@, c, 0) is None,
        },
{
    let len = s.unicode_len();
    let mut i: usize = 0;
    while i < len
        invariant
            i <= len,
            len == s@.len(),
            find1_from(s@, c, 0) == find1_from(s@, c, i as int),
        decreases len - i,
    {
        if s.get_char(i) == c {
            return Some(i);
        }
        i = i + 1;
    }
    None
}

/// Finds the first occurrence of `c0` immediately followed by `c1` in `s`.
pub fn find_char2(s: &str, c0: char, c1: char) -> (r: Option<usize>)
    ensures
        match r {
            Some(j) => find2_from(s@, c0, c1, 0) == Some(j as int) && j + 1 < s@.len(),
            None => find2_from(s@, c0, c1, 0) is None,
        },
{
    let len = s.unicode_len();
    if len == 0 {
        return None;
    }
    let mut i: usize = 0;
    while i < len - 1
        invariant
            1 <= len,
            i <= len,
            len == s@.len(),
            find2_from(s@, c0, c1, 0) == find2_from(s@, c0, c1, i as int),
        decreases len - i,
    {
        if s.get_char(i) == c0 && s.get_char(i + 1) == c1 {
            return Some(i);
        }
        i = i + 1;
    }
    None
}

/// Whether `c` is a decimal digit (code points 48 through 57).
pub open spec fn is_digit(c: char) -> bool {
    48 <= c as u32 <= 57
}

/// The numeric value of a digit character.
pub open spec fn digit_val(c: char) -> int {
    c as u32 - 48
}

/// Whether every character of `s` is a decimal digit.
pub open spec fn all_digits(s: Seq<char>) -> bool {
    forall|i: int| 0 <= i < s.len() ==> is_digit(s[i])
}

/// The number a sequence of digits denotes, most significant first.
pub open spec fn digits_value(s: Seq<char>) -> int
    decreases s.len(),
{
    if s.len() == 0 {
        0
    } else {
        digits_value(s.drop_last()) * 10 + digit_val(s.last())
    }
}

/// The integer a string denotes: an optional sign, then one or more
/// digits, nothing else. `None` when the string is not of that shape.
pub open spec fn parse_int_spec(s: Seq<char>) -> Option<int> {
    if s.len() == 0 {
        None
    } else if s[0] == '-' {
        if s.len() > 1 && all_digits(s.skip(1)) {
            Some(-digits_value(s.skip(1)))
        } else {
            None
        }
    } else if s[0] == '+' {
        if s.len() > 1 && all_digits(s.skip(1)) {
            Some(digits_value(s.skip(1)))
        } else {
            None
        }
    } else if all_digits(s) {
        Some(digits_value(s))
    } else {
        None
    }
}

/// A sequence of digits denotes a number that is not negative.
proof fn lemma_digits_value_nonneg(s: Seq<char>)
    requires
        all_digits(s),
    ensures
        digits_value(s) >= 0,
    decreases s.len(),
{
    if s.len() > 0 {
        assert(all_digits(s.drop_last())) by {
            assert(forall|i: int| 0 <= i < s.len() - 1 ==> s.drop_last()[i] == s[i]);
        }
        lemma_digits_value_nonneg(s.drop_last());
    }
}

/// Extending a digit string only grows the number it denotes.
proof fn lemma_digits_value_prefix(s: Seq<char>, k: int)
    requires
        0 <= k <= s.len(),
        all_digits(s),
    ensures
        digits_value(s.take(k)) <= digits_value(s),
    decreases s.len() - k,
{
    if k < s.len() {
        lemma_digits_value_prefix(s, k + 1);
        assert(all_digits(s.take(k))) by {
            assert(forall|i: int| 0 <= i < k ==> s.take(k)[i] == s[i]);
        }
        lemma_digits_value_nonneg(s.take(k));
        assert(s.take(k + 1).drop_last() =~= s.take(k));
        assert(s.take(k + 1).last() == s[k]);
    } else {
        assert(s.take(k) =~= s);
    }
}

/// Parses an optionally-signed decimal integer that fits in an `i64`.
/// `None` when the string is not an integer at all or does not fit.
pub fn parse_int_str(s: &str) -> (r: Option<i64>)
    ensures
        match r {
            Some(v) => parse_int_spec(s@) == Some(v as int),
            None => parse_int_spec(s@) is None || (parse_int_spec(s@) matches Some(n) && (n
                < i64::MIN || n > i64::MAX)),
        },
{
    let len = s.unicode_len();
    if len == 0 {
        return None;
    }
    let c0 = s.get_char(0);
    let neg = c0 == '-';
    let start: usize = if c0 == '-' || c0 == '+' {
        1
    } else {
        0
    };
    if len == start {
        return None;
    }
    let ghost digits = s@.skip(start as int);
    let mut acc: u128 = 0;
    let mut i: usize = start;
    proof {
        assert(s@.subrange(start as int, start as int) =~= Seq::<char>::empty());
    }
    while i < len
        invariant
            start <= i <= len,
            start <= 1,
            len == s@.len(),
            digits == s@.skip(start as int),
            start == 1 ==> (s@[0] == '-' || s@[0] == '+'),
            start == 0 ==> !(s@[0] == '-' || s@[0] == '+'),
            neg == (s@[0] == '-'),
            all_digits(s@.subrange(start as int, i as int)),
            acc == digits_value(s@.subrange(start as int, i as int)),
            acc <= 0x8000_0000_0000_0000u128,
        decreases len - i,
    {
        let c = s.get_char(i);
        let u = c as u32;
        if !(48 <= u && u <= 57) {
            proof {
                assert(digits[i - start] == s@[i as int]);
                assert(!all_digits(digits));
            }
            return None;
        }
        acc = acc * 10 + ((u - 48) as u128);
        proof {
            assert(s@.subrange(start as int, i + 1).drop_last() =~= s@.subrange(
                start as int,
                i as int,
            ));
            assert(s@.subrange(start as int, i + 1).last() == s@[i as int]);
        }
        i = i + 1;
        if acc > 0x8000_0000_0000_0000u128 {
            proof {
                if start == 0 {
                    assert(s@.skip(0) =~= s@);
                }
                if all_digits(digits) {
                    assert(s@.subrange(start as int, i as int) =~= digits.take(i - start));
                    lemma_digits_value_prefix(digits, i - start);
                }
            }
            return None;
        }
    }
    proof {
        assert(s@.subrange(start as int, len as int) =~= digits);
        if start == 0 {
            assert(s@.skip(0) =~= s@);
        }
    }
    if neg {
        if acc == 0x8000_0000_0000_0000u128 {
            Some(i64::MIN)
        } else {
            Some(-(acc as i64))
        }
    } else {
        if acc > 0x7fff_ffff_ffff_ffffu128 {
            None
        } else {
            Some(acc as i64)
        }
    }
}

/// Whether `p` is a prefix of `s`, by character.
pub fn has_prefix(s: &str, p: &str) -> (r: bool)
    ensures
        r == prefix_of(p@, s@),
{
    let slen = s.unicode_len();
    let plen = p.unicode_len();
    if plen > slen {
        return false;
    }
    let mut i: usize = 0;
    while i < plen
        invariant
            i <= plen,
            plen <= slen,
            slen == s@.len(),
            plen == p@.len(),
            forall|j: int| 0 <= j < i ==> s@[j] == p@[j],
        decreases plen - i,
    {
        if s.get_char(i) != p.get_char(i) {
            proof {
                assert(s@.take(plen as int)[i as int] != p@[i as int]);
            }
            return false;
        }
        i = i + 1;
    }
    proof {
        assert(s@.take(plen as int) =~= p@);
    }
    true
}


/// A `Some` answer of `find1_from` lies within the string.
proof fn lemma_find1_bounds(s: Seq<char>, c: char, i: int)
    requires
        0 <= i,
    ensures
        find1_from(s, c, i) matches Some(j) ==> i <= j < s.len(),
    decreases s.len() - i,
{
    if i < s.len() && s[i] != c {
        lemma_find1_bounds(s, c, i + 1);
    }
}

/// A `Some` answer of `find2_from` lies within the string, with room for
/// both characters.
proof fn lemma_find2_bounds(s: Seq<char>, c0: char, c1: char, i: int)
    requires
        0 <= i,
    ensures
        find2_from(s, c0, c1, i) matches Some(j) ==> i <= j && j + 1 < s.len(),
    decreases s.len() - i,
{
    if i + 1 < s.len() && !(s[i] == c0 && s[i + 1] == c1) {
        lemma_find2_bounds(s, c0, c1, i + 1);
    }
}

/// The operand a string denotes, after trimming: a subject field, an
/// object field, a quoted string literal, or an integer literal that fits
/// in an `i64`. Anything else is a parse error carrying the trimmed text.
pub open spec fn parse_operand_spec(s: Seq<char>) -> Result<SideRuleView, ErrorView> {
    let t = trim_spec(s);
    if prefix_of("subject."@, t) {
        Ok(SideRuleView::Subject(t.skip("subject."@.len() as int)))
    } else if prefix_of("object."@, t) {
        Ok(SideRuleView::Object(t.skip("object."@.len() as int)))
    } else if t.len() >= 2 && t[0] == '\'' && t.last() == '\'' {
        Ok(SideRuleView::Literal(ValueView::Str(t.subrange(1, t.len() - 1))))
    } else {
        match parse_int_spec(t) {
            Some(n) => if i64::MIN <= n <= i64::MAX {
                Ok(SideRuleView::Literal(ValueView::Int(n)))
            } else {
                Err(ErrorView::Parse(t))
            },
            None => Err(ErrorView::Parse(t)),
        }
    }
}

/// Parses one operand.
pub fn parse_operand(s: &str) -> (r: Result<SideRule, Error>)
    ensures
        res_view(r) == parse_operand_spec(s@),
{
    let t = trim_str(s);
    let tlen = t.unicode_len();
    proof {
        reveal_strlit("subject.");
        reveal_strlit("object.");
    }
    if has_prefix(t, "subject.") {
        let field = t.substring_char(8, tlen);
        proof {
            assert(t@.subrange(8, tlen as int) =~= t@.skip(8));
        }
        return Ok(SideRule::Subject(field.to_owned()));
    }
    if has_prefix(t, "object.") {
        let field = t.substring_char(7, tlen);
        proof {
            assert(t@.subrange(7, tlen as int) =~= t@.skip(7));
        }
        return Ok(SideRule::Object(field.to_owned()));
    }
    if tlen >= 2 && char_at_is(t, 0, '\'') && char_at_is(t, tlen - 1, '\'') {
        let content = t.substring_char(1, tlen - 1);
        return Ok(SideRule::Literal(Value::Str(content.to_owned())));
    }
    match parse_int_str(t) {
        Some(v) => Ok(SideRule::Literal(Value::Int(v))),
        None => Err(Error::Parse(t.to_owned())),
    }
}

/// The clause two operand strings and an operator denote: the first
/// operand error wins, else the parsed clause.
pub open spec fn clause_make_spec(l: Seq<char>, op: Op, r: Seq<char>) -> Result<
    RuleView,
    ErrorView,
> {
    match parse_operand_spec(l) {
        Err(e) => Err(e),
        Ok(lo) => match parse_operand_spec(r) {
            Err(e) => Err(e),
            Ok(ro) => Ok(RuleView { left: lo, operator: op, right: ro }),
        },
    }
}

/// The clause a string denotes. The operator symbols are tried in a fixed
/// order over the whole string: `==`, `!=`, `>=`, `<=`, `>`, `<`; the text
/// on either side of the first symbol found gives the operands. A string
/// with no operator at all is a parse error carrying the whole text.
pub open spec fn parse_clause_spec(s: Seq<char>) -> Result<RuleView, ErrorView> {
    match find2_from(s, '=', '=', 0) {
        Some(i) => clause_make_spec(s.take(i), Op::Eq, s.skip(i + 2)),
        None => match find2_from(s, '!', '=', 0) {
            Some(i) => clause_make_spec(s.take(i), Op::Ne, s.skip(i + 2)),
            None => match find2_from(s, '>', '=', 0) {
                Some(i) => clause_make_spec(s.take(i), Op::Ge, s.skip(i + 2)),
                None => match find2_from(s, '<', '=', 0) {
                    Some(i) => clause_make_spec(s.take(i), Op::Le, s.skip(i + 2)),
                    None => match find1_from(s, '>', 0) {
                        Some(i) => clause_make_spec(s.take(i), Op::Gt, s.skip(i + 1)),
                        None => match find1_from(s, '<', 0) {
                            Some(i) => clause_make_spec(s.take(i), Op::Lt, s.skip(i + 1)),
                            None => Err(ErrorView::Parse(s)),
                        },
                    },
                },
            },
        },
    }
}

/// Parses two operand strings around an operator into a clause.
fn clause_make(l: &str, op: Op, r: &str) -> (res: Result<Rule, Error>)
    ensures
        res_view(res) == clause_make_spec(l@, op, r@),
{
    match parse_operand(l) {
        Err(e) => Err(e),
        Ok(lo) => match parse_operand(r) {
            Err(e) => Err(e),
            Ok(ro) => Ok(Rule { left: lo, operator: op, right: ro }),
        },
    }
}

/// Parses one clause.
pub fn parse_clause(s: &str) -> (r: Result<Rule, Error>)
    ensures
        res_view(r) == parse_clause_spec(s@),
{
    let len = s.unicode_len();
    if let Some(i) = find_char2(s, '=', '=') {
        let l = s.substring_char(0, i);
        let rr = s.substring_char(i + 2, len);
        proof {
            assert(l@ =~= s@.take(i as int));
            assert(rr@ =~= s@.skip(i + 2));
        }
        return clause_make(l, Op::Eq, rr);
    }
    if let Some(i) = find_char2(s, '!', '=') {
        let l = s.substring_char(0, i);
        let rr = s.substring_char(i + 2, len);
        proof {
            assert(l@ =~= s@.take(i as int));
            assert(rr@ =~= s@.skip(i + 2));
        }
        return clause_make(l, Op::Ne, rr);
    }
    if let Some(i) = find_char2(s, '>', '=') {
        let l = s.substring_char(0, i);
        let rr = s.substring_char(i + 2, len);
        proof {
            assert(l@ =~= s@.take(i as int));
            assert(rr@ =~= s@.skip(i + 2));
        }
        return clause_make(l, Op::Ge, rr);
    }
    if let Some(i) = find_char2(s, '<', '=') {
        let l = s.substring_char(0, i);
        let rr = s.substring_char(i + 2, len);
        proof {
            assert(l@ =~= s@.take(i as int));
            assert(rr@ =~= s@.skip(i + 2));
        }
        return clause_make(l, Op::Le, rr);
    }
    if let Some(i) = find_char(s, '>') {
        let l = s.substring_char(0, i);
        let rr = s.substring_char(i + 1, len);
        proof {
            assert(l@ =~= s@.take(i as int));
            assert(rr@ =~= s@.skip(i + 1));
        }
        return clause_make(l, Op::Gt, rr);
    }
    if let Some(i) = find_char(s, '<') {
        let l = s.substring_char(0, i);
        let rr = s.substring_char(i + 1, len);
        proof {
            assert(l@ =~= s@.take(i as int));
            assert(rr@ =~= s@.skip(i + 1));
        }
        return clause_make(l, Op::Lt, rr);
    }
    Err(Error::Parse(s.to_owned()))
}

/// The clause list a comma-separated string denotes. Pieces that are all
/// whitespace are dropped; the first failing clause wins.
pub open spec fn parse_clauses_spec(s: Seq<char>) -> Result<Seq<RuleView>, ErrorView>
    decreases s.len(),
    via parse_clauses_spec_dec
{
    match find1_from(s, ',', 0) {
        None => if trim_spec(s).len() == 0 {
            Ok(Seq::empty())
        } else {
            match parse_clause_spec(trim_spec(s)) {
                Err(e) => Err(e),
                Ok(c) => Ok(seq![c]),
            }
        },
        Some(i) => if trim_spec(s.take(i)).len() == 0 {
            parse_clauses_spec(s.skip(i + 1))
        } else {
            match parse_clause_spec(trim_spec(s.take(i))) {
                Err(e) => Err(e),
                Ok(c) => match parse_clauses_spec(s.skip(i + 1)) {
                    Err(e) => Err(e),
                    Ok(cs) => Ok(seq![c] + cs),
                },
            }
        },
    }
}

#[via_fn]
proof fn parse_clauses_spec_dec(s: Seq<char>) {
    lemma_find1_bounds(s, ',', 0);
}

/// Parses a comma-separated clause list.
pub fn parse_clauses(s: &str) -> (r: Result<Vec<Rule>, Error>)
    ensures
        match r {
            Ok(v) => parse_clauses_spec(s@) == Ok::<Seq<RuleView>, ErrorView>(v.deep_view()),
            Err(e) => parse_clauses_spec(s@) == Err::<Seq<RuleView>, ErrorView>(e@),
        },
    decreases s@.len(),
{
    let len = s.unicode_len();
    match find_char(s, ',') {
        None => {
            let t = trim_str(s);
            if t.unicode_len() == 0 {
                let v: Vec<Rule> = Vec::new();
                proof {
                    assert(v.deep_view() =~= Seq::<RuleView>::empty());
                }
                Ok(v)
            } else {
                match parse_clause(t) {
                    Err(e) => Err(e),
                    Ok(c) => {
                        let mut v: Vec<Rule> = Vec::new();
                        v.push(c);
                        proof {
                            assert(v.deep_view() =~= seq![c@]);
                        }
                        Ok(v)
                    },
                }
            }
        },
        Some(i) => {
            let piece = s.substring_char(0, i);
            let rest = s.substring_char(i + 1, len);
            proof {
                assert(piece@ =~= s@.take(i as int));
                assert(rest@ =~= s@.skip(i + 1));
            }
            let t = trim_str(piece);
            if t.unicode_len() == 0 {
                parse_clauses(rest)
            } else {
                match parse_clause(t) {
                    Err(e) => Err(e),
                    Ok(c) => match parse_clauses(rest) {
                        Err(e) => Err(e),
                        Ok(mut cs) => {
                            let ghost old_cs = cs.deep_view();
                            cs.insert(0, c);
                            proof {
                                assert(cs.deep_view() =~= seq![c@] + old_cs);
                            }
                            Ok(cs)
                        },
                    },
                }
            }
        },
    }
}

/// The OR-group a bracketed string denotes: trim it, strip the brackets,
/// parse the clauses inside.
pub open spec fn parse_group_spec(s: Seq<char>) -> Result<Seq<RuleView>, ErrorView> {
    parse_clauses_spec(strip_close_spec(strip_open_spec(trim_spec(s))))
}

/// Parses one bracketed OR-group.
pub fn parse_group(s: &str) -> (r: Result<Vec<Rule>, Error>)
    ensures
        match r {
            Ok(v) => parse_group_spec(s@) == Ok::<Seq<RuleView>, ErrorView>(v.deep_view()),
            Err(e) => parse_group_spec(s@) == Err::<Seq<RuleView>, ErrorView>(e@),
        },
{
    let t = trim_str(s);
    let inner = strip_brackets(t);
    parse_clauses(inner)
}

/// The policy a string denotes: groups separated by `],`, each parsed as
/// an OR-group; the first failing group wins.
pub open spec fn parse_rules_spec(s: Seq<char>) -> Result<Seq<Seq<RuleView>>, ErrorView>
    decreases s.len(),
    via parse_rules_spec_dec
{
    match find2_from(s, ']', ',', 0) {
        None => match parse_group_spec(s) {
            Err(e) => Err(e),
            Ok(g) => Ok(seq![g]),
        },
        Some(i) => match parse_group_spec(s.take(i)) {
            Err(e) => Err(e),
            Ok(g) => match parse_rules_spec(s.skip(i + 2)) {
                Err(e) => Err(e),
                Ok(gs) => Ok(seq![g] + gs),
            },
        },
    }
}

#[via_fn]
proof fn parse_rules_spec_dec(s: Seq<char>) {
    lemma_find2_bounds(s, ']', ',', 0);
}

/// Parses the group list of a policy string.
fn parse_groups(s: &str) -> (r: Result<Vec<Vec<Rule>>, Error>)
    ensures
        match r {
            Ok(v) => parse_rules_spec(s@) == Ok::<Seq<Seq<RuleView>>, ErrorView>(v.deep_view()),
            Err(e) => parse_rules_spec(s@) == Err::<Seq<Seq<RuleView>>, ErrorView>(e@),
        },
    decreases s@.len(),
{
    let len = s.unicode_len();
    match find_char2(s, ']', ',') {
        None => match parse_group(s) {
            Err(e) => Err(e),
            Ok(g) => {
                let mut v: Vec<Vec<Rule>> = Vec::new();
                v.push(g);
                proof {
                    assert(v.deep_view() =~= seq![g.deep_view()]);
                }
                Ok(v)
            },
        },
        Some(i) => {
            let piece = s.substring_char(0, i);
            let rest = s.substring_char(i + 2, len);
            proof {
                assert(piece@ =~= s@.take(i as int));
                assert(rest@ =~= s@.skip(i + 2));
            }
            match parse_group(piece) {
                Err(e) => Err(e),
                Ok(g) => match parse_groups(rest) {
                    Err(e) => Err(e),
                    Ok(mut gs) => {
                        let ghost old_gs = gs.deep_view();
                        gs.insert(0, g);
                        proof {
                            assert(gs.deep_view() =~= seq![g.deep_view()] + old_gs);
                        }
                        Ok(gs)
                    },
                },
            }
        },
    }
}

/// Parses a whole textual policy into [`Rules`].
pub fn parse_rules(s: &str) -> (r: Result<Rules, Error>)
    ensures
        match r {
            Ok(rules) => parse_rules_spec(s@) == Ok::<Seq<Seq<RuleView>>, ErrorView>(rules@),
            Err(e) => parse_rules_spec(s@) == Err::<Seq<Seq<RuleView>>, ErrorView>(e@),
        },
{
    match parse_groups(s) {
        Ok(v) => Ok(Rules(v)),
        Err(e) => Err(e),
    }
}

} // verus!
