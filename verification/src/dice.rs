//! Dice notation: terms like `2d6`, split out of a compound expression and
//! parsed into a die count and a face count.
//!
//! An expression is cut at every `+` or `-`, each sign opening a new term;
//! a term is either a signed integer modifier or a die group written
//! `<count>d<faces>`.  A die group tolerates what a plain decimal parse
//! does — surrounding ASCII whitespace, an uppercase separator, a leading
//! plus on either number.

use vstd::prelude::*;

verus! {

/// A term separator in a compound expression.
pub open spec fn is_sign(c: char) -> bool {
    c == '+' || c == '-'
}

/// A decimal digit.
pub open spec fn is_digit(c: char) -> bool {
    48 <= c as int <= 57
}

/// The die-group separator.
pub open spec fn is_dice_sep(c: char) -> bool {
    c == 'd' || c == 'D'
}

/// ASCII whitespace, which a die-group term may carry at either end.
pub open spec fn is_space(c: char) -> bool {
    c == ' ' || c == '\t' || c == '\n' || c == '\r' || c as int == 12
}

/// The sequence with its leading ASCII whitespace removed.
pub open spec fn trim_front(s: Seq<char>) -> Seq<char>
    decreases s.len(),
{
    if s.len() > 0 && is_space(s[0]) {
        trim_front(s.skip(1))
    } else {
        s
    }
}

/// The sequence with its trailing ASCII whitespace removed.
pub open spec fn trim_back(s: Seq<char>) -> Seq<char>
    decreases s.len(),
{
    if s.len() > 0 && is_space(s.last()) {
        trim_back(s.drop_last())
    } else {
        s
    }
}

/// The sequence with ASCII whitespace removed from both ends.
pub open spec fn trimmed(s: Seq<char>) -> Seq<char> {
    trim_back(trim_front(s))
}

/// Trimming the front removes exactly the leading run of whitespace.
proof fn lemma_trim_front_window(s: Seq<char>, lo: int)
    requires
        0 <= lo <= s.len(),
        forall|j: int| 0 <= j < lo ==> is_space(#[trigger] s[j]),
        lo == s.len() || !is_space(s[lo]),
    ensures
        trim_front(s) == s.skip(lo),
    decreases lo,
{
    if lo == 0 {
        assert(s.skip(0) =~= s);
    } else {
        lemma_trim_front_window(s.skip(1), lo - 1);
        assert(s.skip(1).skip(lo - 1) =~= s.skip(lo));
    }
}

/// Trimming the back removes exactly the trailing run of whitespace.
proof fn lemma_trim_back_window(s: Seq<char>, hi: int)
    requires
        0 <= hi <= s.len(),
        forall|j: int| hi <= j < s.len() ==> is_space(#[trigger] s[j]),
        hi == 0 || !is_space(s[hi - 1]),
    ensures
        trim_back(s) == s.take(hi),
    decreases s.len() - hi,
{
    if hi == s.len() {
        assert(s.take(hi) =~= s);
    } else {
        lemma_trim_back_window(s.drop_last(), hi);
        assert(s.drop_last().take(hi) =~= s.take(hi));
    }
}

/// The digits of a number, with one optional leading plus sign stripped —
/// the shape an unsigned decimal parse accepts.
pub open spec fn after_plus(s: Seq<char>) -> Seq<char> {
    if s.len() > 0 && s[0] == '+' {
        s.skip(1)
    } else {
        s
    }
}

/// A nonempty string of decimal digits.
pub open spec fn digit_seq(s: Seq<char>) -> bool {
    s.len() > 0 && (forall|i: int| 0 <= i < s.len() ==> is_digit(#[trigger] s[i]))
}

/// The number a digit string denotes.
pub open spec fn digits_value(s: Seq<char>) -> int
    decreases s.len(),
{
    if s.len() == 0 {
        0
    } else {
        10 * digits_value(s.drop_last()) + (s.last() as int - 48)
    }
}

/// A digit string denotes a non-negative number.
pub proof fn lemma_digits_value_nonneg(s: Seq<char>)
    requires
        forall|i: int| 0 <= i < s.len() ==> is_digit(#[trigger] s[i]),
    ensures
        digits_value(s) >= 0,
    decreases s.len(),
{
    if s.len() > 0 {
        lemma_digits_value_nonneg(s.drop_last());
    }
}

/// Appending digits never shrinks the denoted number.
pub proof fn lemma_digits_value_prefix(s: Seq<char>, i: int)
    requires
        forall|j: int| 0 <= j < s.len() ==> is_digit(#[trigger] s[j]),
        0 <= i <= s.len(),
    ensures
        digits_value(s.take(i)) <= digits_value(s),
    decreases s.len(),
{
    if i < s.len() {
        assert(s.drop_last().take(i) =~= s.take(i));
        lemma_digits_value_prefix(s.drop_last(), i);
        lemma_digits_value_nonneg(s.drop_last());
    } else {
        assert(s.take(i) =~= s);
    }
}

/// The terms of a list, one after another.
pub open spec fn concat_terms(ts: Seq<Seq<char>>) -> Seq<char>
    decreases ts.len(),
{
    if ts.len() == 0 {
        Seq::empty()
    } else {
        concat_terms(ts.drop_last()) + ts.last()
    }
}

/// Cut a compound expression at every sign character.
///
/// Each sign opens a new term, so every term but the first starts with its
/// sign and contains no further sign; the first term contains no sign at
/// all (it is empty when the expression starts with a sign).  Read in
/// order, the terms give back the whole expression.
pub fn split_notation(notation: &str) -> (terms: Vec<String>)
    ensures
        concat_terms(terms.deep_view()) == notation@,
        notation@.len() == 0 ==> terms@.len() == 0,
        notation@.len() > 0 ==> terms@.len() > 0,
        forall|t: int|
            1 <= t < terms@.len() ==> terms@[t]@.len() > 0 && is_sign(terms@[t]@[0]),
        forall|t: int, j: int|
            0 <= t < terms@.len() && (if t == 0 {
                0int
            } else {
                1int
            }) <= j < terms@[t]@.len() ==> !is_sign(#[trigger] terms@[t]@[j]),
{
    let len = notation.unicode_len();
    let mut terms: Vec<String> = Vec::new();
    let mut st: usize = 0;
    let mut i: usize = 0;
    while i < len
        invariant
            len == notation@.len(),
            st <= i <= len,
            concat_terms(terms.deep_view()) == notation@.take(st as int),
            terms@.len() == 0 ==> st == 0,
            terms@.len() > 0 ==> st < i,
            terms@.len() > 0 && st > 0 ==> is_sign(notation@[st as int]),
            terms@.len() > 0 && st == 0 ==> terms@.len() == 1 && terms@[0]@.len() == 0
                && is_sign(notation@[0]),
            forall|j: int| st < j < i ==> !is_sign(#[trigger] notation@[j]),
            terms@.len() == 0 ==> (forall|j: int|
                0 <= j < i ==> !is_sign(#[trigger] notation@[j])),
            forall|t: int|
                1 <= t < terms@.len() ==> terms@[t]@.len() > 0 && is_sign(terms@[t]@[0]),
            forall|t: int, j: int|
                0 <= t < terms@.len() && (if t == 0 {
                    0int
                } else {
                    1int
                }) <= j < terms@[t]@.len() ==> !is_sign(#[trigger] terms@[t]@[j]),
        decreases len - i,
    {
        let c = notation.get_char(i);
        let cu = c as u32;
        if cu == 43 || cu == 45 {
            let piece = notation.substring_char(st, i);
            let ghost before = terms.deep_view();
            terms.push(String::from_str(piece));
            proof {
                assert(terms.deep_view().drop_last() =~= before);
                assert(concat_terms(terms.deep_view()) =~= notation@.take(i as int));
            }
            st = i;
        }
        i = i + 1;
    }
    if len > 0 {
        let piece = notation.substring_char(st, len);
        let ghost before = terms.deep_view();
        terms.push(String::from_str(piece));
        proof {
            assert(terms.deep_view().drop_last() =~= before);
            assert(notation@.take(len as int) =~= notation@);
            assert(concat_terms(terms.deep_view()) =~= notation@);
        }
    }
    terms
}

/// Parse the digits of `s` between `start` and `end` as a decimal number,
/// refusing an empty or non-digit range and any value above `max`.
fn parse_digits(s: &str, start: usize, end: usize, max: u64) -> (r: Option<u64>)
    requires
        start <= end <= s@.len(),
        9 <= max,
    ensures
        r is Some <==> digit_seq(s@.subrange(start as int, end as int)) && digits_value(
            s@.subrange(start as int, end as int),
        ) <= max,
        r matches Some(v) ==> v == digits_value(s@.subrange(start as int, end as int)),
{
    if start == end {
        return None;
    }
    let ghost part = s@.subrange(start as int, end as int);
    let mut v: u64 = 0;
    let mut i: usize = start;
    while i < end
        invariant
            start <= i <= end <= s@.len(),
            start < end,
            9 <= max,
            part == s@.subrange(start as int, end as int),
            forall|j: int| 0 <= j < i - start ==> is_digit(#[trigger] part[j]),
            v == digits_value(part.take(i - start)),
            v <= max,
        decreases end - i,
    {
        let c = s.get_char(i);
        let cu = c as u32;
        if !(48 <= cu && cu <= 57) {
            proof {
                assert(part[i - start] == s@[i as int]);
                assert(!is_digit(part[i - start]));
            }
            return None;
        }
        let d = (cu - 48) as u64;
        proof {
            assert(part.take(i - start + 1).drop_last() =~= part.take(i - start));
            assert(part.take(i - start + 1).last() == part[i - start]);
            assert(part[i - start] == s@[i as int]);
        }
        if v > (max - d) / 10 {
            // Any further digits only grow the number, so it is already
            // over the bound.
            proof {
                vstd::arithmetic::div_mod::lemma_fundamental_div_mod((max - d) as int, 10);
                assert(10 * v + d > max) by (nonlinear_arith)
                    requires
                        v > (max - d) / 10,
                        (max - d) as int == 10 * (((max - d) as int) / 10) + ((max - d) as int)
                            % 10,
                        0 <= ((max - d) as int) % 10 < 10,
                        0 <= d <= 9,
                        d <= max,
                ;
                if digit_seq(part) {
                    lemma_digits_value_prefix(part, i - start + 1);
                }
            }
            return None;
        }
        proof {
            vstd::arithmetic::div_mod::lemma_fundamental_div_mod((max - d) as int, 10);
            assert(10 * v + d <= max) by (nonlinear_arith)
                requires
                    v <= (max - d) / 10,
                    (max - d) as int == 10 * (((max - d) as int) / 10) + ((max - d) as int) % 10,
                    0 <= ((max - d) as int) % 10 < 10,
                    0 <= d <= 9,
                    d <= max,
            ;
        }
        v = v * 10 + d;
        i = i + 1;
    }
    proof {
        assert(part.take(end - start) =~= part);
    }
    Some(v)
}

/// One group of dice: how many to roll and how many faces each has.
#[derive(Clone, Copy, Debug, PartialEq, Eq, Structural)]
pub struct Dice {
    /// Number of faces of each die; always at least one.
    pub face: i64,
    /// Number of dice to roll; always at least one.
    pub count: usize,
}

/// A die-group term splits at position `p`: a single separator with the
/// count before it and the face number after it.  Each number is a digit
/// string, optionally preceded by a plus sign, at least one and within its
/// machine bound; a minus-signed or zero face never names a die.
pub open spec fn dice_split_at(s: Seq<char>, p: int) -> bool {
    &&& 0 <= p < s.len()
    &&& is_dice_sep(s[p])
    &&& forall|q: int| 0 <= q < s.len() && q != p ==> !is_dice_sep(#[trigger] s[q])
    &&& digit_seq(after_plus(s.subrange(0, p)))
    &&& digit_seq(after_plus(s.subrange(p + 1, s.len() as int)))
    &&& 1 <= digits_value(after_plus(s.subrange(0, p))) <= usize::MAX
    &&& 1 <= digits_value(after_plus(s.subrange(p + 1, s.len() as int))) <= i64::MAX
}

/// Parse a die-group term such as `2d6`.  Leading and trailing ASCII
/// whitespace is ignored; what remains must be `<count>d<faces>` with one
/// separator (`d` or `D`), each number a digit string within its machine
/// bound, at least one, and optionally preceded by a plus sign.
pub fn parse_dice(d: &str) -> (r: Option<Dice>)
    ensures
        r is Some <==> exists|p: int| dice_split_at(trimmed(d@), p),
        r matches Some(dice) ==> forall|p: int|
            dice_split_at(trimmed(d@), p) ==> dice.count == digits_value(
                after_plus(trimmed(d@).subrange(0, p)),
            ) && dice.face == digits_value(
                after_plus(trimmed(d@).subrange(p + 1, trimmed(d@).len() as int)),
            ),
{
    let len = d.unicode_len();
    let mut lo: usize = 0;
    loop
        invariant
            len == d@.len(),
            lo <= len,
            forall|j: int| 0 <= j < lo ==> is_space(#[trigger] d@[j]),
        ensures
            lo <= len,
            forall|j: int| 0 <= j < lo ==> is_space(#[trigger] d@[j]),
            lo == len || !is_space(d@[lo as int]),
        decreases len - lo,
    {
        if lo == len {
            break;
        }
        let cu = d.get_char(lo) as u32;
        if !(cu == 32 || cu == 9 || cu == 10 || cu == 12 || cu == 13) {
            break;
        }
        lo = lo + 1;
    }
    let mut hi: usize = len;
    loop
        invariant
            len == d@.len(),
            lo <= hi <= len,
            forall|j: int| hi <= j < len ==> is_space(#[trigger] d@[j]),
        ensures
            lo <= hi <= len,
            forall|j: int| hi <= j < len ==> is_space(#[trigger] d@[j]),
            hi == lo || !is_space(d@[hi - 1]),
        decreases hi,
    {
        if hi == lo {
            break;
        }
        let cu = d.get_char(hi - 1) as u32;
        if !(cu == 32 || cu == 9 || cu == 10 || cu == 12 || cu == 13) {
            break;
        }
        hi = hi - 1;
    }
    let ghost t = trimmed(d@);
    proof {
        lemma_trim_front_window(d@, lo as int);
        lemma_trim_back_window(d@.skip(lo as int), hi - lo);
        assert(d@.skip(lo as int).take(hi - lo) =~= d@.subrange(lo as int, hi as int));
        assert(t == d@.subrange(lo as int, hi as int));
        assert(t.len() == hi - lo);
    }
    let mut sep: Option<usize> = None;
    let mut i: usize = lo;
    while i < hi
        invariant
            len == d@.len(),
            lo <= i <= hi <= len,
            t == trimmed(d@),
            t == d@.subrange(lo as int, hi as int),
            sep matches Some(p) ==> lo <= p < i && is_dice_sep(d@[p as int]),
            sep is None ==> (forall|q: int| lo <= q < i ==> !is_dice_sep(#[trigger] d@[q])),
            sep matches Some(p) ==> (forall|q: int|
                lo <= q < i && q != p ==> !is_dice_sep(#[trigger] d@[q])),
        decreases hi - i,
    {
        let c = d.get_char(i);
        let cu = c as u32;
        if cu == 100 || cu == 68 {
            match sep {
                Some(first) => {
                    // A second separator: no position can satisfy the split.
                    proof {
                        if exists|pt: int| dice_split_at(t, pt) {
                            let pt = choose|pt: int| dice_split_at(t, pt);
                            assert(t[first - lo] == d@[first as int]);
                            assert(t[i - lo] == d@[i as int]);
                            assert(false);
                        }
                    }
                    return None;
                },
                None => {
                    sep = Some(i);
                },
            }
        }
        i = i + 1;
    }
    let p = match sep {
        Some(p) => p,
        None => {
            proof {
                if exists|pt: int| dice_split_at(t, pt) {
                    let pt = choose|pt: int| dice_split_at(t, pt);
                    assert(t[pt] == d@[lo + pt]);
                    assert(false);
                }
            }
            return None;
        },
    };
    proof {
        // The found separator is the only candidate split position.
        assert forall|pt: int| dice_split_at(t, pt) implies pt == p - lo by {
            assert(t[pt] == d@[lo + pt]);
        }
    }
    let mut cstart: usize = lo;
    if cstart < p {
        if d.get_char(cstart) as u32 == 43 {
            cstart = cstart + 1;
        }
    }
    proof {
        assert(t.subrange(0, p - lo) =~= d@.subrange(lo as int, p as int));
        assert(after_plus(t.subrange(0, p - lo)) =~= d@.subrange(cstart as int, p as int));
    }
    let count_max: u64 = usize::MAX as u64;
    let face_max: u64 = i64::MAX as u64;
    let count = match parse_digits(d, cstart, p, count_max) {
        Some(v) => v,
        None => {
            return None;
        },
    };
    let mut fstart: usize = p + 1;
    if fstart < hi {
        if d.get_char(fstart) as u32 == 43 {
            fstart = fstart + 1;
        }
    }
    proof {
        assert(t.subrange(p - lo + 1, t.len() as int) =~= d@.subrange(p + 1, hi as int));
        assert(after_plus(t.subrange(p - lo + 1, t.len() as int)) =~= d@.subrange(
            fstart as int,
            hi as int,
        ));
    }
    let face = match parse_digits(d, fstart, hi, face_max) {
        Some(v) => v,
        None => {
            return None;
        },
    };
    if count == 0 || face == 0 {
        return None;
    }
    proof {
        assert forall|q: int| 0 <= q < t.len() && q != p - lo implies !is_dice_sep(
            t[q],
        ) by {
            assert(t[q] == d@[lo + q]);
        }
        assert(dice_split_at(t, p - lo));
    }
    Some(Dice { face: face as i64, count: count as usize })
}

/// What a term of a compound expression means.
#[derive(Clone, Copy, Debug, PartialEq, Eq, Structural)]
pub enum Term {
    /// A signed integer added to the total.
    Modifier(i64),
    /// A group of dice to roll.
    Die(Dice),
    /// Neither a modifier nor a die group.
    Invalid,
}

/// A modifier term: an optional sign followed by digits, within `i64`
/// bounds by magnitude.
pub open spec fn modifier_valid(s: Seq<char>) -> bool {
    if s.len() > 0 && is_sign(s[0]) {
        digit_seq(s.skip(1)) && digits_value(s.skip(1)) <= i64::MAX
    } else {
        digit_seq(s) && digits_value(s) <= i64::MAX
    }
}

/// The number a modifier term denotes.
pub open spec fn modifier_value(s: Seq<char>) -> int {
    if s.len() > 0 && s[0] == '-' {
        -digits_value(s.skip(1))
    } else if s.len() > 0 && s[0] == '+' {
        digits_value(s.skip(1))
    } else {
        digits_value(s)
    }
}

/// Parse a modifier term: an optional leading sign and a digit string.
pub fn parse_modifier(s: &str) -> (r: Option<i64>)
    ensures
        r is Some <==> modifier_valid(s@),
        r matches Some(v) ==> v == modifier_value(s@),
{
    let len = s.unicode_len();
    if len == 0 {
        return None;
    }
    let c = s.get_char(0);
    let cu = c as u32;
    let (start, negative) = if cu == 45 {
        (1usize, true)
    } else if cu == 43 {
        (1usize, false)
    } else {
        (0usize, false)
    };
    let max: u64 = i64::MAX as u64;
    proof {
        if start == 1 {
            assert(s@.subrange(1, len as int) =~= s@.skip(1));
        } else {
            assert(s@.subrange(0, len as int) =~= s@);
        }
    }
    let v = match parse_digits(s, start, len, max) {
        Some(v) => v,
        None => {
            return None;
        },
    };
    if negative {
        Some(-(v as i64))
    } else {
        Some(v as i64)
    }
}

/// Classify one term: first as a modifier, then as a die group; anything
/// else is invalid.
pub fn parse_term(s: &str) -> (t: Term)
    ensures
        modifier_valid(s@) ==> t == Term::Modifier(modifier_value(s@) as i64),
        !modifier_valid(s@) && (exists|p: int| dice_split_at(trimmed(s@), p)) ==> (t
            matches Term::Die(dice) && forall|p: int|
            dice_split_at(trimmed(s@), p) ==> dice.count == digits_value(
                after_plus(trimmed(s@).subrange(0, p)),
            ) && dice.face == digits_value(
                after_plus(trimmed(s@).subrange(p + 1, trimmed(s@).len() as int)),
            )),
        !modifier_valid(s@) && !(exists|p: int| dice_split_at(trimmed(s@), p)) ==> t
            == Term::Invalid,
{
    match parse_modifier(s) {
        Some(v) => Term::Modifier(v),
        None => match parse_dice(s) {
            Some(dice) => Term::Die(dice),
            None => Term::Invalid,
        },
    }
}

} // verus!
