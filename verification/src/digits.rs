//! Decimal digits: scanning numeric tokens out of text and rendering
//! numbers back as decimal text.

use vstd::prelude::*;
use vstd::string::StrSliceExecFns;
use vstd::string::StringExecFns;

verus! {

/// `c` is an ASCII decimal digit.
pub open spec fn is_dec_digit(c: char) -> bool {
    '0' <= c && c <= '9'
}

/// Numeric value of a decimal digit character.
pub open spec fn digit_value(c: char) -> nat {
    ((c as int) - ('0' as int)) as nat
}

/// Runtime test for `is_dec_digit`.
pub fn is_dec_digit_exec(c: char) -> (b: bool)
    ensures
        b == is_dec_digit(c),
{
    '0' <= c && c <= '9'
}

/// The longest all-digit prefix of `s`.
pub open spec fn leading_digits(s: Seq<char>) -> Seq<char>
    decreases s.len(),
{
    if s.len() == 0 || !is_dec_digit(s[0]) {
        Seq::empty()
    } else {
        seq![s[0]] + leading_digits(s.skip(1))
    }
}

/// The first run of decimal digits in `s`: the digits from the first digit
/// character up to the first non-digit after it. Empty when `s` holds no digit.
pub open spec fn number_token(s: Seq<char>) -> Seq<char>
    decreases s.len(),
{
    if s.len() == 0 {
        Seq::empty()
    } else if is_dec_digit(s[0]) {
        leading_digits(s)
    } else {
        number_token(s.skip(1))
    }
}

/// Value of an all-digit sequence read as a decimal numeral.
pub open spec fn digits_value(s: Seq<char>) -> nat
    decreases s.len(),
{
    if s.len() == 0 {
        0
    } else {
        digits_value(s.drop_last()) * 10 + digit_value(s.last())
    }
}

/// What `parse_int` returns: the value of the first digit run of `s`,
/// or `None` when `s` holds no digit or the run's value does not fit in `u32`.
pub open spec fn spec_parse_int(s: Seq<char>) -> Option<u32> {
    let t = number_token(s);
    if t.len() > 0 && digits_value(t) <= u32::MAX {
        Some(digits_value(t) as u32)
    } else {
        None
    }
}

proof fn lemma_number_token_skip(s: Seq<char>, k: int)
    requires
        0 <= k <= s.len(),
        forall|m: int| 0 <= m < k ==> !is_dec_digit(s[m]),
    ensures
        number_token(s) == number_token(s.skip(k)),
    decreases k,
{
    if k == 0 {
        assert(s.skip(0) =~= s);
    } else {
        assert(forall|m: int| 0 <= m < k - 1 ==> !is_dec_digit(s.skip(1)[m]));
        lemma_number_token_skip(s.skip(1), k - 1);
        assert(s.skip(1).skip(k - 1) =~= s.skip(k));
    }
}

proof fn lemma_leading_digits_take(t: Seq<char>, k: int)
    requires
        0 <= k <= t.len(),
        forall|m: int| 0 <= m < k ==> is_dec_digit(t[m]),
        k == t.len() || !is_dec_digit(t[k]),
    ensures
        leading_digits(t) == t.take(k),
    decreases k,
{
    if k == 0 {
        assert(t.take(0) =~= Seq::<char>::empty());
    } else {
        assert(forall|m: int| 0 <= m < k - 1 ==> is_dec_digit(t.skip(1)[m]));
        lemma_leading_digits_take(t.skip(1), k - 1);
        assert(seq![t[0]] + t.skip(1).take(k - 1) =~= t.take(k));
    }
}

proof fn lemma_leading_digits_prefix(t: Seq<char>, k: int)
    requires
        0 <= k <= t.len(),
        forall|m: int| 0 <= m < k ==> is_dec_digit(t[m]),
    ensures
        k <= leading_digits(t).len(),
        t.take(k) == leading_digits(t).take(k),
    decreases k,
{
    if k == 0 {
        assert(t.take(0) =~= leading_digits(t).take(0));
    } else {
        assert(forall|m: int| 0 <= m < k - 1 ==> is_dec_digit(t.skip(1)[m]));
        lemma_leading_digits_prefix(t.skip(1), k - 1);
        assert(t.take(k) =~= seq![t[0]] + t.skip(1).take(k - 1));
        assert(leading_digits(t).take(k) =~= seq![t[0]] + leading_digits(t.skip(1)).take(k - 1));
    }
}

proof fn lemma_digits_value_take_le(t: Seq<char>, k: int)
    requires
        0 <= k <= t.len(),
    ensures
        digits_value(t.take(k)) <= digits_value(t),
    decreases t.len(),
{
    if k == t.len() {
        assert(t.take(k) =~= t);
    } else {
        lemma_digits_value_take_le(t.drop_last(), k);
        assert(t.drop_last().take(k) =~= t.take(k));
    }
}

/// Extracting a labeled numeric field reads the digits after the label: when
/// the label itself holds no digit, the first digit run of `label + rest` is
/// the first digit run of `rest`, whatever follows it.
pub proof fn lemma_token_after_label(label: Seq<char>, rest: Seq<char>)
    requires
        forall|m: int| 0 <= m < label.len() ==> !is_dec_digit(label[m]),
    ensures
        number_token(label + rest) == number_token(rest),
{
    assert(forall|m: int| 0 <= m < label.len() ==> !is_dec_digit((label + rest)[m]));
    lemma_number_token_skip(label + rest, label.len() as int);
    assert((label + rest).skip(label.len() as int) =~= rest);
}

/// Extract the first run of decimal digits in `input` as a number, ignoring
/// whatever surrounds it (a label before it, a unit suffix after it).
/// `None` when `input` holds no digit or the run overflows `u32`.
#[verifier::loop_isolation(false)]
pub fn parse_int(input: &str) -> (r: Option<u32>)
    ensures
        r == spec_parse_int(input@),
{
    let len: usize = input.unicode_len();
    let mut i: usize = 0;
    while i < len && !is_dec_digit_exec(input.get_char(i))
        invariant
            0 <= i <= len,
            forall|m: int| 0 <= m < i ==> !is_dec_digit(input@[m]),
        decreases len - i,
    {
        i = i + 1;
    }
    if i == len {
        proof {
            lemma_number_token_skip(input@, len as int);
            assert(input@.skip(len as int) =~= Seq::<char>::empty());
        }
        return None;
    }
    let ghost start = i as int;
    proof {
        lemma_number_token_skip(input@, start);
    }
    let mut acc: u32 = 0;
    let mut j: usize = i;
    while j < len && is_dec_digit_exec(input.get_char(j))
        invariant
            start <= j <= len,
            start < len,
            is_dec_digit(input@[start]),
            forall|m: int| start <= m < j ==> is_dec_digit(input@[m]),
            acc as nat == digits_value(input@.subrange(start, j as int)),
        decreases len - j,
    {
        let c = input.get_char(j);
        let d: u32 = (c as u32) - 48;
        if acc > (u32::MAX - d) / 10 {
            proof {
                assert(acc * 10 + d > u32::MAX) by (nonlinear_arith)
                    requires
                        acc > (u32::MAX - d) / 10,
                        d <= u32::MAX,
                ;
                assert(input@.subrange(start, j as int + 1).drop_last() =~= input@.subrange(
                    start,
                    j as int,
                ));
                assert(digits_value(input@.subrange(start, j as int + 1)) > u32::MAX);
                assert(forall|m: int|
                    0 <= m < j + 1 - start ==> is_dec_digit(input@.skip(start)[m]));
                lemma_leading_digits_prefix(input@.skip(start), j + 1 - start);
                assert(input@.skip(start).take(j + 1 - start) =~= input@.subrange(
                    start,
                    j as int + 1,
                ));
                lemma_digits_value_take_le(leading_digits(input@.skip(start)), j + 1 - start);
            }
            return None;
        }
        acc = acc * 10 + d;
        proof {
            assert(input@.subrange(start, j as int + 1).drop_last() =~= input@.subrange(
                start,
                j as int,
            ));
        }
        j = j + 1;
    }
    proof {
        assert(forall|m: int| 0 <= m < j - start ==> is_dec_digit(input@.skip(start)[m]));
        lemma_leading_digits_take(input@.skip(start), j - start);
        assert(input@.skip(start).take(j - start) =~= input@.subrange(start, j as int));
    }
    Some(acc)
}

/// What `parse_pid` returns: the value of `s` read as a strict decimal
/// numeral, or `None` when `s` is empty, holds a non-digit, or overflows.
pub open spec fn spec_parse_pid(s: Seq<char>) -> Option<u32> {
    if s.len() > 0 && (forall|m: int| 0 <= m < s.len() ==> is_dec_digit(s[m])) && digits_value(s)
        <= u32::MAX {
        Some(digits_value(s) as u32)
    } else {
        None
    }
}

/// Parse a process-listing entry name as a pid: the whole name must be
/// decimal digits. Names with any other character are not process entries.
#[verifier::loop_isolation(false)]
pub fn parse_pid(name: &str) -> (r: Option<u32>)
    ensures
        r == spec_parse_pid(name@),
{
    let len: usize = name.unicode_len();
    if len == 0 {
        return None;
    }
    let mut acc: u32 = 0;
    let mut i: usize = 0;
    while i < len
        invariant
            0 <= i <= len,
            forall|m: int| 0 <= m < i ==> is_dec_digit(name@[m]),
            acc as nat == digits_value(name@.take(i as int)),
        decreases len - i,
    {
        let c = name.get_char(i);
        if !is_dec_digit_exec(c) {
            return None;
        }
        let d: u32 = (c as u32) - 48;
        if acc > (u32::MAX - d) / 10 {
            proof {
                assert(acc * 10 + d > u32::MAX) by (nonlinear_arith)
                    requires
                        acc > (u32::MAX - d) / 10,
                        d <= u32::MAX,
                ;
                assert(name@.take(i as int + 1).drop_last() =~= name@.take(i as int));
                assert(digits_value(name@.take(i as int + 1)) > u32::MAX);
                lemma_digits_value_take_le(name@, i as int + 1);
            }
            return None;
        }
        acc = acc * 10 + d;
        proof {
            assert(name@.take(i as int + 1).drop_last() =~= name@.take(i as int));
        }
        i = i + 1;
    }
    proof {
        assert(name@.take(len as int) =~= name@);
    }
    Some(acc)
}

/// The digit character for a value below ten.
pub open spec fn dec_digit_char(d: nat) -> char {
    if d == 0 {
        '0'
    } else if d == 1 {
        '1'
    } else if d == 2 {
        '2'
    } else if d == 3 {
        '3'
    } else if d == 4 {
        '4'
    } else if d == 5 {
        '5'
    } else if d == 6 {
        '6'
    } else if d == 7 {
        '7'
    } else if d == 8 {
        '8'
    } else {
        '9'
    }
}

/// Decimal rendering of `n`: most significant digit first, no sign, no
/// leading zero except for `n == 0` itself.
pub open spec fn dec_of(n: nat) -> Seq<char>
    decreases n,
{
    if n < 10 {
        seq![dec_digit_char(n)]
    } else {
        dec_of(n / 10).push(dec_digit_char(n % 10))
    }
}

fn dec_digit_str(d: u64) -> (s: &'static str)
    requires
        d < 10,
    ensures
        s@ == seq![dec_digit_char(d as nat)],
{
    proof {
        reveal_strlit("0");
        reveal_strlit("1");
        reveal_strlit("2");
        reveal_strlit("3");
        reveal_strlit("4");
        reveal_strlit("5");
        reveal_strlit("6");
        reveal_strlit("7");
        reveal_strlit("8");
        reveal_strlit("9");
    }
    let s: &'static str = if d == 0 {
        "0"
    } else if d == 1 {
        "1"
    } else if d == 2 {
        "2"
    } else if d == 3 {
        "3"
    } else if d == 4 {
        "4"
    } else if d == 5 {
        "5"
    } else if d == 6 {
        "6"
    } else if d == 7 {
        "7"
    } else if d == 8 {
        "8"
    } else {
        "9"
    };
    proof {
        assert(s@ =~= seq![dec_digit_char(d as nat)]);
    }
    s
}

/// Render `n` as decimal text.
pub fn u64_to_dec(n: u64) -> (s: String)
    ensures
        s@ == dec_of(n as nat),
    decreases n,
{
    if n < 10 {
        String::from_str(dec_digit_str(n))
    } else {
        let mut s = u64_to_dec(n / 10);
        s.append(dec_digit_str(n % 10));
        proof {
            assert(s@ =~= dec_of(n as nat));
        }
        s
    }
}

} // verus!
