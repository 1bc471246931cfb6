//! The message endpoint's command grammar.
//!
//! Commands arrive as datagrams of whitespace-separated ASCII words.  This
//! module trims the raw buffer, splits it into tokens, recognises each
//! command's shape — including the exact literal grammar of the numbers it
//! carries — and hands the caller a structured command.  The caller performs
//! the socket work and converts numeric tokens to their values.

use vstd::prelude::*;
use crate::estimates::QuantileType;
use crate::external::Estimate;

verus! {

/// A space byte.
pub open spec fn spec_is_space(b: u8) -> bool {
    b == 32
}

/// An ASCII whitespace byte, as the end of a command is trimmed: space,
/// tab, line feed, vertical tab, form feed or carriage return.
pub open spec fn spec_is_ascii_whitespace(b: u8) -> bool {
    b == 32 || (9 <= b && b <= 13)
}

/// The buffer with its trailing zero bytes removed.
pub open spec fn spec_trim_zeros(s: Seq<u8>) -> Seq<u8>
    decreases s.len(),
{
    if s.len() > 0 && s.last() == 0 {
        spec_trim_zeros(s.drop_last())
    } else {
        s
    }
}

/// The buffer with its trailing ASCII whitespace removed.
pub open spec fn spec_trim_whitespace(s: Seq<u8>) -> Seq<u8>
    decreases s.len(),
{
    if s.len() > 0 && spec_is_ascii_whitespace(s.last()) {
        spec_trim_whitespace(s.drop_last())
    } else {
        s
    }
}

fn is_ascii_whitespace_byte(b: u8) -> (r: bool)
    ensures
        r == spec_is_ascii_whitespace(b),
{
    b == 32 || (9 <= b && b <= 13)
}

/// Trim a received datagram: drop the unused zero tail of the buffer, then
/// any trailing whitespace of the command itself.
pub fn trim_buffer(buffer: &[u8]) -> (message: Vec<u8>)
    ensures
        message@ == spec_trim_whitespace(spec_trim_zeros(buffer@)),
{
    let mut end = buffer.len();
    assert(buffer@.take(end as int) =~= buffer@);
    while end > 0 && buffer[end - 1] == 0
        invariant
            end <= buffer@.len(),
            spec_trim_zeros(buffer@) == spec_trim_zeros(buffer@.take(end as int)),
        decreases end,
    {
        assert(buffer@.take(end as int).last() == buffer@[end - 1]);
        assert(buffer@.take(end as int).drop_last() =~= buffer@.take(end - 1));
        end = end - 1;
    }
    proof {
        if end > 0 {
            assert(buffer@.take(end as int).last() == buffer@[end - 1]);
        }
        assert(spec_trim_zeros(buffer@.take(end as int)) == buffer@.take(end as int));
    }
    while end > 0 && is_ascii_whitespace_byte(buffer[end - 1])
        invariant
            end <= buffer@.len(),
            spec_trim_whitespace(spec_trim_zeros(buffer@)) == spec_trim_whitespace(
                buffer@.take(end as int),
            ),
        decreases end,
    {
        assert(buffer@.take(end as int).last() == buffer@[end - 1]);
        assert(buffer@.take(end as int).drop_last() =~= buffer@.take(end - 1));
        end = end - 1;
    }
    proof {
        if end > 0 {
            assert(buffer@.take(end as int).last() == buffer@[end - 1]);
        }
        assert(spec_trim_whitespace(buffer@.take(end as int)) == buffer@.take(end as int));
    }
    let mut message: Vec<u8> = Vec::new();
    for i in 0..end
        invariant
            end <= buffer@.len(),
            message@.len() == i,
            forall|j: int| 0 <= j < i ==> #[trigger] message@[j] == buffer@[j],
    {
        message.push(buffer[i]);
    }
    assert(message@ =~= buffer@.take(end as int));
    message
}

/// The message split at every single space, as `str::split(" ")` splits it:
/// consecutive spaces yield empty tokens, and the empty message yields one
/// empty token.
pub open spec fn spec_split_tokens(msg: Seq<u8>) -> Seq<Seq<u8>>
    decreases msg.len(),
{
    if msg.len() == 0 {
        seq![Seq::<u8>::empty()]
    } else if spec_is_space(msg.first()) {
        seq![Seq::<u8>::empty()] + spec_split_tokens(msg.drop_first())
    } else {
        let rest = spec_split_tokens(msg.drop_first());
        seq![seq![msg.first()] + rest.first()] + rest.drop_first()
    }
}

/// A split always yields at least one token.
pub proof fn lemma_split_tokens_nonempty(msg: Seq<u8>)
    ensures
        spec_split_tokens(msg).len() >= 1,
    decreases msg.len(),
{
    if msg.len() > 0 {
        lemma_split_tokens_nonempty(msg.drop_first());
    }
}

/// The views of a token list.
pub open spec fn spec_token_views(ts: Seq<Vec<u8>>) -> Seq<Seq<u8>> {
    ts.map_values(|t: Vec<u8>| t@)
}

/// Split a message at every single space.
pub fn split_tokens(msg: &[u8]) -> (tokens: Vec<Vec<u8>>)
    ensures
        spec_token_views(tokens@) == spec_split_tokens(msg@),
        tokens@.len() >= 1,
{
    let n = msg.len();
    let mut done: Vec<Vec<u8>> = Vec::new();
    let mut current: Vec<u8> = Vec::new();
    proof {
        lemma_split_tokens_nonempty(msg@);
        assert(msg@.skip(0) =~= msg@);
        assert(spec_token_views(done@) =~= Seq::<Seq<u8>>::empty());
        assert(current@ + spec_split_tokens(msg@).first() =~= spec_split_tokens(msg@).first());
        assert(spec_token_views(done@) + (seq![spec_split_tokens(msg@).first()]
            + spec_split_tokens(msg@).drop_first()) =~= spec_split_tokens(msg@));
    }
    for i in 0..n
        invariant
            n == msg@.len(),
            spec_split_tokens(msg@) == spec_token_views(done@) + (seq![
                current@ + spec_split_tokens(msg@.skip(i as int)).first(),
            ] + spec_split_tokens(msg@.skip(i as int)).drop_first()),
    {
        proof {
            lemma_split_tokens_nonempty(msg@.skip(i + 1));
            assert(msg@.skip(i as int).drop_first() =~= msg@.skip(i + 1));
            assert(msg@.skip(i as int).first() == msg@[i as int]);
        }
        let b = msg[i];
        if b == 32 {
            let ghost done_before = done@;
            let finished = current;
            current = Vec::new();
            done.push(finished);
            proof {
                assert(spec_token_views(done@) =~= spec_token_views(done_before).push(
                    finished@,
                ));
                assert(finished@ + spec_split_tokens(msg@.skip(i as int)).first() =~= finished@);
                assert(spec_token_views(done_before).push(finished@) + (seq![
                    current@ + spec_split_tokens(msg@.skip(i + 1)).first(),
                ] + spec_split_tokens(msg@.skip(i + 1)).drop_first()) =~= spec_token_views(
                    done_before,
                ) + (seq![finished@] + (seq![
                    current@ + spec_split_tokens(msg@.skip(i + 1)).first(),
                ] + spec_split_tokens(msg@.skip(i + 1)).drop_first())));
                assert(seq![finished@] + (seq![
                    current@ + spec_split_tokens(msg@.skip(i + 1)).first(),
                ] + spec_split_tokens(msg@.skip(i + 1)).drop_first()) =~= seq![finished@]
                    + spec_split_tokens(msg@.skip(i + 1)));
                assert(spec_split_tokens(msg@.skip(i as int)) =~= seq![Seq::<u8>::empty()]
                    + spec_split_tokens(msg@.skip(i + 1)));
            }
        } else {
            let ghost current_before = current@;
            current.push(b);
            proof {
                let rest = spec_split_tokens(msg@.skip(i + 1));
                assert(spec_split_tokens(msg@.skip(i as int)) =~= seq![seq![msg@[i as int]]
                    + rest.first()] + rest.drop_first());
                assert(current_before + spec_split_tokens(msg@.skip(i as int)).first()
                    =~= current@ + rest.first());
                assert(spec_split_tokens(msg@.skip(i as int)).drop_first() =~= rest.drop_first());
            }
        }
    }
    proof {
        assert(msg@.skip(n as int) =~= Seq::<u8>::empty());
        assert(current@ + spec_split_tokens(msg@.skip(n as int)).first() =~= current@);
        assert(spec_split_tokens(msg@.skip(n as int)).drop_first() =~= Seq::<Seq<u8>>::empty());
    }
    let ghost done_before = done@;
    done.push(current);
    proof {
        assert(spec_token_views(done@) =~= spec_token_views(done_before).push(current@));
        assert(spec_token_views(done_before).push(current@) =~= spec_token_views(done_before)
            + (seq![current@] + Seq::<Seq<u8>>::empty()));
    }
    done
}

/// An ASCII digit byte.
pub open spec fn spec_is_digit(b: u8) -> bool {
    48 <= b && b <= 57
}

/// A non-empty run of digit bytes.
pub open spec fn spec_all_digits(t: Seq<u8>) -> bool {
    t.len() > 0 && forall|i: int| 0 <= i < t.len() ==> spec_is_digit(#[trigger] t[i])
}

/// The number a run of digit bytes denotes.
pub open spec fn spec_digits_value(t: Seq<u8>) -> nat
    decreases t.len(),
{
    if t.len() == 0 {
        0
    } else {
        (spec_digits_value(t.drop_last()) * 10 + (t.last() - 48)) as nat
    }
}

/// A token `usize::from_str` accepts: an optional plus sign, then digits,
/// denoting a value the type can hold.
pub open spec fn spec_usize_token(t: Seq<u8>) -> bool {
    let digits = if t.len() >= 1 && t[0] == 43 {
        t.drop_first()
    } else {
        t
    };
    spec_all_digits(digits) && spec_digits_value(digits) <= usize::MAX
}

/// The value such a token denotes.
pub open spec fn spec_usize_token_value(t: Seq<u8>) -> nat {
    if t.len() >= 1 && t[0] == 43 {
        spec_digits_value(t.drop_first())
    } else {
        spec_digits_value(t)
    }
}

/// A longer digit run never denotes a smaller number.
proof fn lemma_digits_value_prefix(t: Seq<u8>, i: int)
    requires
        0 <= i <= t.len(),
        forall|j: int| 0 <= j < t.len() ==> spec_is_digit(#[trigger] t[j]),
    ensures
        spec_digits_value(t.take(i)) <= spec_digits_value(t),
    decreases t.len() - i,
{
    if i < t.len() {
        lemma_digits_value_prefix(t, i + 1);
        assert(t.take(i + 1).drop_last() =~= t.take(i));
        assert(t.take(i + 1).last() == t[i]);
        let v = spec_digits_value(t.take(i));
        let b = t[i];
        assert(spec_is_digit(b));
        assert(v <= v * 10 + (b - 48)) by (nonlinear_arith)
            requires
                48 <= b <= 57,
                v >= 0,
        ;
        assert(spec_digits_value(t.take(i + 1)) == v * 10 + (b - 48));
    } else {
        assert(t.take(i) =~= t);
    }
}

/// Parse a token as `usize::from_str` does: the denoted value, or nothing
/// for a malformed token or one beyond the type's range.
pub fn parse_usize_token(t: &[u8]) -> (r: Option<usize>)
    ensures
        match r {
            Some(v) => spec_usize_token(t@) && v == spec_usize_token_value(t@),
            None => !spec_usize_token(t@),
        },
{
    let n = t.len();
    let start: usize = if n >= 1 && t[0] == 43 {
        1
    } else {
        0
    };
    let ghost digits = if t@.len() >= 1 && t@[0] == 43 {
        t@.drop_first()
    } else {
        t@
    };
    assert(digits =~= t@.skip(start as int));
    if n == start {
        assert(!spec_all_digits(digits));
        return None;
    }
    let mut value: usize = 0;
    let mut i = start;
    while i < n
        invariant
            n == t@.len(),
            start <= i <= n,
            start < n,
            start == 0 || start == 1,
            (start == 1) == (t@.len() >= 1 && t@[0] == 43),
            digits == t@.skip(start as int),
            forall|j: int| start <= j < i ==> spec_is_digit(#[trigger] t@[j]),
            value == spec_digits_value(t@.skip(start as int).take(i - start)),
        decreases n - i,
    {
        let b = t[i];
        if !(48 <= b && b <= 57) {
            assert(!spec_is_digit(digits[i - start]));
            assert(!spec_all_digits(digits));
            assert(!spec_usize_token(t@));
            return None;
        }
        assert(digits.take(i + 1 - start).drop_last() =~= digits.take(i - start));
        assert(digits.take(i + 1 - start).last() == t@[i as int]);
        let shifted = match value.checked_mul(10) {
            Some(s) => s,
            None => {
                proof {
                    assert(digits =~= (if t@.len() >= 1 && t@[0] == 43 {
                        t@.drop_first()
                    } else {
                        t@
                    }));
                    if spec_all_digits(digits) {
                        lemma_digits_value_prefix(digits, i + 1 - start);
                        assert(spec_digits_value(digits.take(i + 1 - start)) >= value * 10);
                        assert(spec_digits_value(digits) > usize::MAX);
                    }
                    assert(!spec_usize_token(t@));
                }
                return None;
            },
        };
        let next = match shifted.checked_add((b - 48) as usize) {
            Some(s) => s,
            None => {
                proof {
                    assert(digits =~= (if t@.len() >= 1 && t@[0] == 43 {
                        t@.drop_first()
                    } else {
                        t@
                    }));
                    if spec_all_digits(digits) {
                        lemma_digits_value_prefix(digits, i + 1 - start);
                        assert(spec_digits_value(digits.take(i + 1 - start)) > usize::MAX);
                        assert(spec_digits_value(digits) > usize::MAX);
                    }
                    assert(!spec_usize_token(t@));
                }
                return None;
            },
        };
        value = next;
        i = i + 1;
    }
    assert(digits.take(n - start) =~= digits);
    assert(spec_all_digits(digits));
    Some(value)
}

} // verus!

verus! {

// ---------------------------------------------------------------------------
// The f64 literal grammar
// ---------------------------------------------------------------------------

/// The byte a lowercase fold maps an ASCII byte to.
pub open spec fn spec_ascii_lower(b: u8) -> u8 {
    if 65 <= b && b <= 90 {
        (b + 32) as u8
    } else {
        b
    }
}

/// A byte sequence folded to lowercase.
pub open spec fn spec_lower_seq(s: Seq<u8>) -> Seq<u8> {
    s.map_values(|b: u8| spec_ascii_lower(b))
}

/// The bytes of an ASCII character sequence.
pub open spec fn spec_bytes_of(s: Seq<char>) -> Seq<u8> {
    Seq::new(s.len(), |i: int| s[i] as u8)
}

/// A token with its leading sign removed, if it carries one.
pub open spec fn spec_strip_sign(t: Seq<u8>) -> Seq<u8> {
    if t.len() >= 1 && (t[0] == 43 || t[0] == 45) {
        t.drop_first()
    } else {
        t
    }
}

/// A possibly empty run of digit bytes.
pub open spec fn spec_digits_or_empty(t: Seq<u8>) -> bool {
    forall|i: int| 0 <= i < t.len() ==> spec_is_digit(#[trigger] t[i])
}

/// The mantissa of a float literal: digits, optionally with one decimal
/// point, carrying at least one digit.
pub open spec fn spec_f64_mantissa(s: Seq<u8>) -> bool {
    ||| spec_all_digits(s)
    ||| (s.len() > 1 && exists|i: int|
        0 <= i < s.len() && #[trigger] s[i] == 46 && spec_digits_or_empty(s.take(i))
            && spec_digits_or_empty(s.skip(i + 1)))
}

/// The exponent of a float literal: an optional sign, then digits.
pub open spec fn spec_exponent_part(s: Seq<u8>) -> bool {
    spec_all_digits(spec_strip_sign(s))
}

/// An unsigned float number: a mantissa with an optional exponent.
pub open spec fn spec_f64_number(s: Seq<u8>) -> bool {
    ||| spec_f64_mantissa(s)
    ||| exists|e: int|
        0 <= e < s.len() && (#[trigger] s[e] == 101 || s[e] == 69) && spec_f64_mantissa(s.take(e))
            && spec_exponent_part(s.skip(e + 1))
}

/// A token `f64::from_str` accepts: an optional sign, then `inf`,
/// `infinity` or `nan` in any casing, or a number.
pub open spec fn spec_f64_literal(t: Seq<u8>) -> bool {
    let body = spec_strip_sign(t);
    ||| spec_lower_seq(body) == spec_bytes_of("inf"@)
    ||| spec_lower_seq(body) == spec_bytes_of("infinity"@)
    ||| spec_lower_seq(body) == spec_bytes_of("nan"@)
    ||| spec_f64_number(body)
}

/// Every byte of a mantissa is a digit or the decimal point.
proof fn lemma_mantissa_bytes(s: Seq<u8>, j: int)
    requires
        spec_f64_mantissa(s),
        0 <= j < s.len(),
    ensures
        spec_is_digit(s[j]) || s[j] == 46,
{
    if !spec_all_digits(s) {
        let i = choose|i: int|
            0 <= i < s.len() && #[trigger] s[i] == 46 && spec_digits_or_empty(s.take(i))
                && spec_digits_or_empty(s.skip(i + 1));
        if j < i {
            assert(s.take(i)[j] == s[j]);
        } else if j > i {
            assert(s.skip(i + 1)[j - i - 1] == s[j]);
        }
    }
}

fn check_mantissa(t: &[u8], from: usize, end: usize) -> (r: bool)
    requires
        from <= end <= t@.len(),
    ensures
        r == spec_f64_mantissa(t@.subrange(from as int, end as int)),
{
    let ghost s = t@.subrange(from as int, end as int);
    let len = end - from;
    let mut dot_count: usize = 0;
    let mut first_dot: usize = 0;
    let mut second_dot: usize = 0;
    let mut bad = false;
    let ghost mut bad_pos: int = 0;
    for i in 0..len
        invariant
            from <= end <= t@.len(),
            len == end - from,
            s == t@.subrange(from as int, end as int),
            dot_count <= i,
            dot_count == 0 ==> forall|j: int| 0 <= j < i ==> s[j] != 46,
            dot_count >= 1 ==> first_dot < i && s[first_dot as int] == 46 && (forall|j: int|
                0 <= j < first_dot ==> s[j] != 46),
            dot_count == 1 ==> forall|j: int|
                0 <= j < i && j != first_dot ==> s[j] != 46,
            dot_count >= 2 ==> first_dot < second_dot < i && s[second_dot as int] == 46,
            !bad ==> forall|j: int|
                0 <= j < i ==> spec_is_digit(#[trigger] s[j]) || s[j] == 46,
            bad ==> 0 <= bad_pos < i && !spec_is_digit(s[bad_pos]) && s[bad_pos] != 46,
    {
        let b = t[from + i];
        assert(s[i as int] == t@[from + i]);
        if b == 46 {
            if dot_count == 0 {
                first_dot = i;
            } else if dot_count == 1 {
                second_dot = i;
            }
            if dot_count < 2 {
                dot_count = dot_count + 1;
            }
        } else if !(48 <= b && b <= 57) {
            bad = true;
            proof {
                bad_pos = i as int;
            }
        }
    }
    if bad {
        proof {
            assert(!spec_all_digits(s));
            assert forall|i: int|
                !(0 <= i < s.len() && #[trigger] s[i] == 46 && spec_digits_or_empty(s.take(i))
                    && spec_digits_or_empty(s.skip(i + 1))) by {
                if 0 <= i < s.len() && s[i] == 46 {
                    if bad_pos < i {
                        assert(s.take(i)[bad_pos] == s[bad_pos]);
                    } else {
                        assert(bad_pos != i);
                        assert(s.skip(i + 1)[bad_pos - i - 1] == s[bad_pos]);
                    }
                }
            }
        }
        return false;
    }
    if dot_count == 0 {
        proof {
            if len > 0 {
                assert(spec_all_digits(s));
            }
        }
        return len > 0;
    }
    if dot_count == 1 {
        proof {
            if len > 1 {
                assert forall|j: int| 0 <= j < s.take(first_dot as int).len() implies spec_is_digit(
                    #[trigger] s.take(first_dot as int)[j],
                ) by {
                    assert(s.take(first_dot as int)[j] == s[j]);
                    assert(s[j] != 46);
                }
                assert forall|j: int|
                    0 <= j < s.skip(first_dot + 1).len() implies spec_is_digit(
                    #[trigger] s.skip(first_dot + 1)[j],
                ) by {
                    assert(s.skip(first_dot + 1)[j] == s[first_dot + 1 + j]);
                    assert(s[first_dot + 1 + j] != 46) by {
                        if s[first_dot + 1 + j] == 46 {
                            assert(dot_count >= 2);
                        }
                    }
                }
                assert(spec_f64_mantissa(s));
            } else {
                assert(s.len() == 1 && s[0] == 46);
                assert(!spec_all_digits(s));
            }
        }
        return len > 1;
    }
    proof {
        assert(!spec_all_digits(s));
        assert forall|i: int|
            !(0 <= i < s.len() && #[trigger] s[i] == 46 && spec_digits_or_empty(s.take(i))
                && spec_digits_or_empty(s.skip(i + 1))) by {
            if 0 <= i < s.len() && s[i] == 46 {
                if i < second_dot {
                    assert(s.skip(i + 1)[second_dot - i - 1] == s[second_dot as int]);
                } else if i > second_dot {
                    assert(s.take(i)[second_dot as int] == s[second_dot as int]);
                } else {
                    assert(s.take(i)[first_dot as int] == s[first_dot as int]);
                }
            }
        }
    }
    false
}

fn check_exponent(t: &[u8], from: usize) -> (r: bool)
    requires
        from <= t@.len(),
    ensures
        r == spec_exponent_part(t@.skip(from as int)),
{
    let ghost s = t@.skip(from as int);
    let len = t.len();
    let start: usize = if from < len && (t[from] == 43 || t[from] == 45) {
        from + 1
    } else {
        from
    };
    assert(spec_strip_sign(s) =~= t@.skip(start as int));
    if start == len {
        assert(!spec_all_digits(spec_strip_sign(s)));
        return false;
    }
    for i in start..len
        invariant
            from <= start < len <= t@.len(),
            s == t@.skip(from as int),
            spec_strip_sign(s) =~= t@.skip(start as int),
            forall|j: int| start <= j < i ==> spec_is_digit(#[trigger] t@[j]),
    {
        let b = t[i];
        if !(48 <= b && b <= 57) {
            assert(!spec_is_digit(spec_strip_sign(s)[i - start]));
            return false;
        }
    }
    assert(spec_all_digits(spec_strip_sign(s)));
    true
}

fn check_number(t: &[u8], from: usize) -> (r: bool)
    requires
        from <= t@.len(),
    ensures
        r == spec_f64_number(t@.skip(from as int)),
{
    let ghost body = t@.skip(from as int);
    let len = t.len();
    let mut e_pos = len;
    let mut i = from;
    while i < len && e_pos == len
        invariant
            from <= i <= len,
            len == t@.len(),
            body == t@.skip(from as int),
            forall|j: int| from <= j < i ==> t@[j] != 101 && t@[j] != 69,
            e_pos == len || (e_pos == i && i < len && (t@[i as int] == 101 || t@[i as int]
                == 69)),
        decreases len - i, (if e_pos == len { 1int } else { 0int }),
    {
        let b = t[i];
        if b == 101 || b == 69 {
            e_pos = i;
        } else {
            i = i + 1;
        }
    }
    assert(e_pos == len ==> forall|j: int| from <= j < len ==> t@[j] != 101 && t@[j] != 69);
    if e_pos == len {
        let r = check_mantissa(t, from, len);
        proof {
            assert(t@.subrange(from as int, len as int) =~= body);
            if !r {
                assert forall|e: int|
                    !(0 <= e < body.len() && (#[trigger] body[e] == 101 || body[e] == 69)
                        && spec_f64_mantissa(body.take(e)) && spec_exponent_part(
                        body.skip(e + 1),
                    )) by {
                    if 0 <= e < body.len() {
                        assert(body[e] == t@[from + e]);
                    }
                }
            }
        }
        return r;
    }
    let mantissa_ok = check_mantissa(t, from, e_pos);
    let exponent_ok = check_exponent(t, e_pos + 1);
    proof {
        let eb = e_pos - from;
        assert(body[eb as int] == t@[e_pos as int]);
        assert(body.take(eb as int) =~= t@.subrange(from as int, e_pos as int));
        assert(body.skip(eb + 1) =~= t@.skip(e_pos + 1));
        if mantissa_ok && exponent_ok {
            assert(spec_f64_number(body));
        } else {
            assert(!spec_f64_mantissa(body)) by {
                if spec_f64_mantissa(body) {
                    lemma_mantissa_bytes(body, eb as int);
                }
            }
            assert forall|e: int|
                !(0 <= e < body.len() && (#[trigger] body[e] == 101 || body[e] == 69)
                    && spec_f64_mantissa(body.take(e)) && spec_exponent_part(body.skip(e + 1))) by {
                if 0 <= e < body.len() && (body[e] == 101 || body[e] == 69) {
                    assert(body[e] == t@[from + e]);
                    assert(from + e >= e_pos);
                    if e > eb {
                        if spec_f64_mantissa(body.take(e)) {
                            lemma_mantissa_bytes(body.take(e), eb as int);
                            assert(body.take(e)[eb as int] == body[eb as int]);
                        }
                    }
                }
            }
        }
    }
    mantissa_ok && exponent_ok
}

/// Whether a token is a float literal `f64::from_str` accepts.
pub fn is_f64_literal_token(t: &[u8]) -> (r: bool)
    ensures
        r == spec_f64_literal(t@),
{
    let len = t.len();
    let start: usize = if len >= 1 && (t[0] == 43 || t[0] == 45) {
        1
    } else {
        0
    };
    assert(spec_strip_sign(t@) =~= t@.skip(start as int));
    proof {
        reveal_strlit("inf");
        reveal_strlit("infinity");
        reveal_strlit("nan");
        assert("inf".is_ascii());
        assert("infinity".is_ascii());
        assert("nan".is_ascii());
    }
    if lower_matches(t, start, "inf") {
        return true;
    }
    if lower_matches(t, start, "infinity") {
        return true;
    }
    if lower_matches(t, start, "nan") {
        return true;
    }
    let r = check_number(t, start);
    r
}

// ---------------------------------------------------------------------------
// Keyword matching
// ---------------------------------------------------------------------------

/// Whether a message begins with the given bytes.
pub open spec fn spec_starts_with(msg: Seq<u8>, prefix: Seq<u8>) -> bool {
    msg.len() >= prefix.len() && msg.take(prefix.len() as int) == prefix
}

fn ascii_bytes<'a>(s: &'a str) -> (b: &'a [u8])
    requires
        s.is_ascii(),
    ensures
        b@ == spec_bytes_of(s@),
{
    broadcast use vstd::string::is_ascii_spec_bytes;

    let b = s.as_bytes();
    assert(b@ =~= spec_bytes_of(s@));
    b
}

/// Whether the tail of `t` from `from` on, folded to lowercase, is the
/// keyword.
fn lower_matches(t: &[u8], from: usize, s: &str) -> (r: bool)
    requires
        s.is_ascii(),
        from <= t@.len(),
    ensures
        r == (spec_lower_seq(t@.skip(from as int)) == spec_bytes_of(s@)),
{
    let kw = ascii_bytes(s);
    let klen = kw.len();
    if t.len() - from != klen {
        assert(spec_lower_seq(t@.skip(from as int)).len() != spec_bytes_of(s@).len());
        return false;
    }
    for i in 0..klen
        invariant
            from + klen == t@.len(),
            from + klen <= usize::MAX,
            klen == kw@.len(),
            kw@ == spec_bytes_of(s@),
            forall|j: int|
                0 <= j < i ==> spec_ascii_lower(t@[from + j]) == kw@[j],
    {
        let b = t[from + i];
        let low: u8 = if 65 <= b && b <= 90 {
            b + 32
        } else {
            b
        };
        if low != kw[i] {
            assert(spec_lower_seq(t@.skip(from as int))[i as int] != spec_bytes_of(s@)[i as int]);
            return false;
        }
    }
    assert(spec_lower_seq(t@.skip(from as int)) =~= spec_bytes_of(s@));
    true
}

/// Whether the message equals the keyword.
fn bytes_equal_keyword(msg: &[u8], s: &str) -> (r: bool)
    requires
        s.is_ascii(),
    ensures
        r == (msg@ == spec_bytes_of(s@)),
{
    let kw = ascii_bytes(s);
    let klen = kw.len();
    if msg.len() != klen {
        assert(msg@.len() != spec_bytes_of(s@).len());
        return false;
    }
    for i in 0..klen
        invariant
            msg@.len() == klen == kw@.len(),
            kw@ == spec_bytes_of(s@),
            forall|j: int| 0 <= j < i ==> msg@[j] == kw@[j],
    {
        if msg[i] != kw[i] {
            return false;
        }
    }
    assert(msg@ =~= spec_bytes_of(s@));
    true
}

/// Whether the message starts with the keyword.
fn bytes_start_with_keyword(msg: &[u8], s: &str) -> (r: bool)
    requires
        s.is_ascii(),
    ensures
        r == spec_starts_with(msg@, spec_bytes_of(s@)),
{
    let kw = ascii_bytes(s);
    let klen = kw.len();
    if msg.len() < klen {
        return false;
    }
    for i in 0..klen
        invariant
            msg@.len() >= klen,
            klen == kw@.len(),
            kw@ == spec_bytes_of(s@),
            forall|j: int| 0 <= j < i ==> msg@[j] == kw@[j],
    {
        if msg[i] != kw[i] {
            assert(msg@.take(kw@.len() as int)[i as int] != kw@[i as int]);
            return false;
        }
    }
    assert(msg@.take(kw@.len() as int) =~= kw@);
    true
}

} // verus!

verus! {

/// One parsed command of the message endpoint, or the malformed shape of
/// one, or an unknown message.
pub enum Command {
    /// `data <n_imputations> <n_columns>`: accept that many data sets.
    Data { n_imputations: usize, n_columns: usize },
    /// A message starting with `data` whose arguments are malformed.
    DataUsage,
    /// `weights`: accept one weight vector.
    Weights,
    /// `replicate weights <n_columns>`: accept one replicate-weight matrix.
    ReplicateWeights { n_columns: usize },
    /// A message starting with `replicate weights` whose argument is
    /// malformed.
    ReplicateWeightsUsage,
    /// `set variance adjustment factor <factor>`: the factor's own token.
    SetVarianceAdjustmentFactor { factor_token: Vec<u8> },
    /// A message starting with `set variance adjustment factor` whose
    /// argument is malformed.
    SetVarianceAdjustmentFactorUsage,
    /// `groups <n_imputations> <n_columns>`: accept grouping matrices.
    Groups { n_imputations: usize, n_columns: usize },
    /// A message starting with `groups` whose arguments are malformed.
    GroupsUsage,
    /// One of the five estimator names.
    SetEstimate { estimate: Estimate },
    /// `set quantiles <q1> <q2> ...`: the quantiles' own tokens.
    SetQuantiles { quantile_tokens: Vec<Vec<u8>> },
    /// A message starting with `set quantiles` whose arguments are
    /// malformed.
    SetQuantilesUsage,
    /// `quantile type <lower|interpolation|upper>`.
    SetQuantileType { quantile_type: QuantileType },
    /// A message starting with `quantile type` whose argument is malformed.
    SetQuantileTypeUsage,
    /// `with intercept <true|false>`.
    WithIntercept { intercept: bool },
    /// A message starting with `with intercept` whose argument is
    /// malformed.
    WithInterceptUsage,
    /// `calculate`.
    Calculate,
    /// Anything else.
    Unknown,
}

fn clone_bytes(v: &Vec<u8>) -> (r: Vec<u8>)
    ensures
        r@ == v@,
{
    let n = v.len();
    let mut r: Vec<u8> = Vec::new();
    for i in 0..n
        invariant
            n == v@.len(),
            r@.len() == i,
            forall|j: int| 0 <= j < i ==> #[trigger] r@[j] == v@[j],
    {
        r.push(v[i]);
    }
    assert(r@ =~= v@);
    r
}

/// Recognise one trimmed message of the message endpoint, in the order the
/// server tries the commands.
#[verifier::rlimit(100)]
pub fn parse_message(msg: &[u8]) -> (cmd: Command)
    ensures
        ({
            let toks = spec_split_tokens(msg@);
            match cmd {
                Command::Data { n_imputations, n_columns } => {
                    &&& spec_starts_with(msg@, spec_bytes_of("data"@))
                    &&& toks.len() == 3
                    &&& spec_usize_token(toks[1])
                    &&& spec_usize_token(toks[2])
                    &&& n_imputations == spec_usize_token_value(toks[1])
                    &&& n_columns == spec_usize_token_value(toks[2])
                },
                Command::DataUsage => {
                    &&& spec_starts_with(msg@, spec_bytes_of("data"@))
                    &&& !(toks.len() == 3 && spec_usize_token(toks[1]) && spec_usize_token(
                        toks[2],
                    ))
                },
                Command::Weights => msg@ == spec_bytes_of("weights"@),
                Command::ReplicateWeights { n_columns } => {
                    &&& spec_starts_with(msg@, spec_bytes_of("replicate weights"@))
                    &&& toks.len() == 3
                    &&& spec_usize_token(toks[2])
                    &&& n_columns == spec_usize_token_value(toks[2])
                },
                Command::ReplicateWeightsUsage => {
                    &&& spec_starts_with(msg@, spec_bytes_of("replicate weights"@))
                    &&& !(toks.len() == 3 && spec_usize_token(toks[2]))
                },
                Command::SetVarianceAdjustmentFactor { factor_token } => {
                    &&& spec_starts_with(msg@, spec_bytes_of("set variance adjustment factor"@))
                    &&& toks.len() == 5
                    &&& spec_f64_literal(toks[4])
                    &&& factor_token@ == toks[4]
                },
                Command::SetVarianceAdjustmentFactorUsage => {
                    &&& spec_starts_with(msg@, spec_bytes_of("set variance adjustment factor"@))
                    &&& !(toks.len() == 5 && spec_f64_literal(toks[4]))
                },
                Command::Groups { n_imputations, n_columns } => {
                    &&& spec_starts_with(msg@, spec_bytes_of("groups"@))
                    &&& toks.len() == 3
                    &&& spec_usize_token(toks[1])
                    &&& spec_usize_token(toks[2])
                    &&& n_imputations == spec_usize_token_value(toks[1])
                    &&& n_columns == spec_usize_token_value(toks[2])
                },
                Command::GroupsUsage => {
                    &&& spec_starts_with(msg@, spec_bytes_of("groups"@))
                    &&& !(toks.len() == 3 && spec_usize_token(toks[1]) && spec_usize_token(
                        toks[2],
                    ))
                },
                Command::SetEstimate { estimate } => {
                    match estimate {
                        Estimate::Frequencies => msg@ == spec_bytes_of("frequencies"@),
                        Estimate::Quantiles => msg@ == spec_bytes_of("quantiles"@),
                        Estimate::Mean => msg@ == spec_bytes_of("mean"@),
                        Estimate::Correlation => msg@ == spec_bytes_of("correlation"@),
                        Estimate::LinearRegression => msg@ == spec_bytes_of("linear regression"@),
                    }
                },
                Command::SetQuantiles { quantile_tokens } => {
                    &&& spec_starts_with(msg@, spec_bytes_of("set quantiles"@))
                    &&& toks.len() >= 3
                    &&& forall|k: int| 2 <= k < toks.len() ==> spec_f64_literal(#[trigger] toks[k])
                    &&& spec_token_views(quantile_tokens@) == toks.skip(2)
                },
                Command::SetQuantilesUsage => {
                    &&& spec_starts_with(msg@, spec_bytes_of("set quantiles"@))
                    &&& !(toks.len() >= 3 && forall|k: int|
                        2 <= k < toks.len() ==> spec_f64_literal(#[trigger] toks[k]))
                },
                Command::SetQuantileType { quantile_type } => {
                    &&& spec_starts_with(msg@, spec_bytes_of("quantile type"@))
                    &&& toks.len() == 3
                    &&& match quantile_type {
                        QuantileType::Lower => toks[2] == spec_bytes_of("lower"@),
                        QuantileType::Interpolation => toks[2] == spec_bytes_of("interpolation"@),
                        QuantileType::Upper => toks[2] == spec_bytes_of("upper"@),
                    }
                },
                Command::SetQuantileTypeUsage => {
                    &&& spec_starts_with(msg@, spec_bytes_of("quantile type"@))
                    &&& !(toks.len() == 3 && (toks[2] == spec_bytes_of("lower"@) || toks[2]
                        == spec_bytes_of("interpolation"@) || toks[2] == spec_bytes_of("upper"@)))
                },
                Command::WithIntercept { intercept } => {
                    &&& spec_starts_with(msg@, spec_bytes_of("with intercept"@))
                    &&& toks.len() == 3
                    &&& (if intercept {
                        toks[2] == spec_bytes_of("true"@)
                    } else {
                        toks[2] == spec_bytes_of("false"@)
                    })
                },
                Command::WithInterceptUsage => {
                    &&& spec_starts_with(msg@, spec_bytes_of("with intercept"@))
                    &&& !(toks.len() == 3 && (toks[2] == spec_bytes_of("true"@) || toks[2]
                        == spec_bytes_of("false"@)))
                },
                Command::Calculate => msg@ == spec_bytes_of("calculate"@),
                Command::Unknown => {
                    &&& !spec_starts_with(msg@, spec_bytes_of("data"@))
                    &&& msg@ != spec_bytes_of("weights"@)
                    &&& !spec_starts_with(msg@, spec_bytes_of("replicate weights"@))
                    &&& !spec_starts_with(msg@, spec_bytes_of("set variance adjustment factor"@))
                    &&& !spec_starts_with(msg@, spec_bytes_of("groups"@))
                    &&& msg@ != spec_bytes_of("frequencies"@)
                    &&& msg@ != spec_bytes_of("quantiles"@)
                    &&& msg@ != spec_bytes_of("mean"@)
                    &&& msg@ != spec_bytes_of("correlation"@)
                    &&& msg@ != spec_bytes_of("linear regression"@)
                    &&& !spec_starts_with(msg@, spec_bytes_of("set quantiles"@))
                    &&& !spec_starts_with(msg@, spec_bytes_of("quantile type"@))
                    &&& !spec_starts_with(msg@, spec_bytes_of("with intercept"@))
                    &&& msg@ != spec_bytes_of("calculate"@)
                },
            }
        }),
{
    proof {
        reveal_strlit("data");
        reveal_strlit("weights");
        reveal_strlit("replicate weights");
        reveal_strlit("set variance adjustment factor");
        reveal_strlit("groups");
        reveal_strlit("frequencies");
        reveal_strlit("quantiles");
        reveal_strlit("mean");
        reveal_strlit("correlation");
        reveal_strlit("linear regression");
        reveal_strlit("set quantiles");
        reveal_strlit("quantile type");
        reveal_strlit("with intercept");
        reveal_strlit("calculate");
        reveal_strlit("lower");
        reveal_strlit("interpolation");
        reveal_strlit("upper");
        reveal_strlit("true");
        reveal_strlit("false");
        assert("data".is_ascii());
        assert("weights".is_ascii());
        assert("replicate weights".is_ascii());
        assert("set variance adjustment factor".is_ascii());
        assert("groups".is_ascii());
        assert("frequencies".is_ascii());
        assert("quantiles".is_ascii());
        assert("mean".is_ascii());
        assert("correlation".is_ascii());
        assert("linear regression".is_ascii());
        assert("set quantiles".is_ascii());
        assert("quantile type".is_ascii());
        assert("with intercept".is_ascii());
        assert("calculate".is_ascii());
        assert("lower".is_ascii());
        assert("interpolation".is_ascii());
        assert("upper".is_ascii());
        assert("true".is_ascii());
        assert("false".is_ascii());
    }
    if bytes_start_with_keyword(msg, "data") {
        let tokens = split_tokens(msg);
        if tokens.len() == 3 {
            let a = parse_usize_token(tokens[1].as_slice());
            let b = parse_usize_token(tokens[2].as_slice());
            match (a, b) {
                (Some(n_imputations), Some(n_columns)) => {
                    return Command::Data { n_imputations, n_columns };
                },
                _ => {
                    return Command::DataUsage;
                },
            }
        }
        return Command::DataUsage;
    }
    if bytes_equal_keyword(msg, "weights") {
        return Command::Weights;
    }
    if bytes_start_with_keyword(msg, "replicate weights") {
        let tokens = split_tokens(msg);
        if tokens.len() == 3 {
            match parse_usize_token(tokens[2].as_slice()) {
                Some(n_columns) => {
                    return Command::ReplicateWeights { n_columns };
                },
                None => {
                    return Command::ReplicateWeightsUsage;
                },
            }
        }
        return Command::ReplicateWeightsUsage;
    }
    if bytes_start_with_keyword(msg, "set variance adjustment factor") {
        let tokens = split_tokens(msg);
        if tokens.len() == 5 {
            if is_f64_literal_token(tokens[4].as_slice()) {
                let factor_token = clone_bytes(&tokens[4]);
                return Command::SetVarianceAdjustmentFactor { factor_token };
            }
        }
        return Command::SetVarianceAdjustmentFactorUsage;
    }
    if bytes_start_with_keyword(msg, "groups") {
        let tokens = split_tokens(msg);
        if tokens.len() == 3 {
            let a = parse_usize_token(tokens[1].as_slice());
            let b = parse_usize_token(tokens[2].as_slice());
            match (a, b) {
                (Some(n_imputations), Some(n_columns)) => {
                    return Command::Groups { n_imputations, n_columns };
                },
                _ => {
                    return Command::GroupsUsage;
                },
            }
        }
        return Command::GroupsUsage;
    }
    if bytes_equal_keyword(msg, "frequencies") {
        return Command::SetEstimate { estimate: Estimate::Frequencies };
    }
    if bytes_equal_keyword(msg, "quantiles") {
        return Command::SetEstimate { estimate: Estimate::Quantiles };
    }
    if bytes_equal_keyword(msg, "mean") {
        return Command::SetEstimate { estimate: Estimate::Mean };
    }
    if bytes_equal_keyword(msg, "correlation") {
        return Command::SetEstimate { estimate: Estimate::Correlation };
    }
    if bytes_equal_keyword(msg, "linear regression") {
        return Command::SetEstimate { estimate: Estimate::LinearRegression };
    }
    if bytes_start_with_keyword(msg, "set quantiles") {
        let tokens = split_tokens(msg);
        let n = tokens.len();
        if n >= 3 {
            let mut quantile_tokens: Vec<Vec<u8>> = Vec::new();
            let mut all_ok = true;
            for k in 2..n
                invariant
                    n == tokens@.len(),
                    spec_token_views(tokens@) == spec_split_tokens(msg@),
                    quantile_tokens@.len() == k - 2,
                    forall|j: int|
                        0 <= j < k - 2 ==> (#[trigger] quantile_tokens@[j])@ == spec_split_tokens(
                            msg@,
                        )[j + 2],
                    all_ok == (forall|j: int|
                        2 <= j < k ==> spec_f64_literal(#[trigger] spec_split_tokens(msg@)[j])),
            {
                assert((tokens@[k as int])@ == spec_split_tokens(msg@)[k as int]);
                if !is_f64_literal_token(tokens[k].as_slice()) {
                    all_ok = false;
                }
                quantile_tokens.push(clone_bytes(&tokens[k]));
            }
            if all_ok {
                assert(spec_token_views(quantile_tokens@) =~= spec_split_tokens(msg@).skip(2));
                return Command::SetQuantiles { quantile_tokens };
            }
        }
        return Command::SetQuantilesUsage;
    }
    if bytes_start_with_keyword(msg, "quantile type") {
        let tokens = split_tokens(msg);
        if tokens.len() == 3 {
            if bytes_equal_keyword(tokens[2].as_slice(), "lower") {
                return Command::SetQuantileType { quantile_type: QuantileType::Lower };
            }
            if bytes_equal_keyword(tokens[2].as_slice(), "interpolation") {
                return Command::SetQuantileType { quantile_type: QuantileType::Interpolation };
            }
            if bytes_equal_keyword(tokens[2].as_slice(), "upper") {
                return Command::SetQuantileType { quantile_type: QuantileType::Upper };
            }
        }
        return Command::SetQuantileTypeUsage;
    }
    if bytes_start_with_keyword(msg, "with intercept") {
        let tokens = split_tokens(msg);
        if tokens.len() == 3 {
            if bytes_equal_keyword(tokens[2].as_slice(), "true") {
                return Command::WithIntercept { intercept: true };
            }
            if bytes_equal_keyword(tokens[2].as_slice(), "false") {
                return Command::WithIntercept { intercept: false };
            }
        }
        return Command::WithInterceptUsage;
    }
    if bytes_equal_keyword(msg, "calculate") {
        return Command::Calculate;
    }
    Command::Unknown
}

} // verus!
