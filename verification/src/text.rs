//! Character-level helpers on strings: blackboard pointer syntax, equality,
//! and the decimal integer and boolean forms that port values are written in.

use vstd::prelude::*;
use vstd::string::*;

verus! {

/// The value of `s` if `s` is written as a blackboard pointer (`"{key}"`):
/// the text between the braces.
pub open spec fn spec_strip_bb_pointer(s: Seq<char>) -> Option<Seq<char>> {
    if s.len() >= 2 && s[0] == '{' && s[s.len() - 1] == '}' {
        Some(s.subrange(1, s.len() - 1))
    } else {
        None
    }
}

/// The view of an optional string slice.
pub open spec fn opt_str_view(o: Option<&str>) -> Option<Seq<char>> {
    match o {
        Some(x) => Some(x@),
        None => None,
    }
}

/// Owned copy of a string slice.
pub fn to_owned_string(s: &str) -> (r: String)
    ensures
        r@ == s@,
{
    s.to_owned()
}

/// Equality of two string slices by their characters.
pub fn str_eq(a: &str, b: &str) -> (r: bool)
    ensures
        r == (a@ == b@),
{
    let x = a.to_owned();
    let y = b.to_owned();
    x == y
}

/// If `s` is a blackboard pointer (`"{value}"`), returns the text inside the
/// braces; otherwise `None`.
pub fn strip_bb_pointer(s: &str) -> (r: Option<&str>)
    ensures
        opt_str_view(r) == spec_strip_bb_pointer(s@),
{
    let n = s.unicode_len();
    if n >= 2 && s.get_char(0) == '{' && s.get_char(n - 1) == '}' {
        Some(s.substring_char(1, n - 1))
    } else {
        None
    }
}

/// Whether `s` starts with `{` and ends with `}`.
pub fn is_bb_pointer(s: &str) -> (r: bool)
    ensures
        r == (s@.len() >= 1 && s@[0] == '{' && s@[s@.len() - 1] == '}'),
{
    let n = s.unicode_len();
    n >= 1 && s.get_char(0) == '{' && s.get_char(n - 1) == '}'
}

/// Operations on blackboard pointer syntax for string-like values.
pub trait BlackboardString {
    /// The characters of the value.
    spec fn bb_chars(&self) -> Seq<char>;

    /// If not a blackboard pointer (i.e. `"value"`, instead of `"{value}"`),
    /// returns `None`. If a blackboard pointer, removes the braces.
    fn strip_bb_pointer(&self) -> (r: Option<&str>)
        ensures
            opt_str_view(r) == spec_strip_bb_pointer(self.bb_chars()),
    ;

    /// Whether the value starts with `{` and ends with `}`.
    fn is_bb_pointer(&self) -> (r: bool)
        ensures
            r == (self.bb_chars().len() >= 1 && self.bb_chars()[0] == '{'
                && self.bb_chars()[self.bb_chars().len() - 1] == '}'),
    ;
}

impl BlackboardString for str {
    open spec fn bb_chars(&self) -> Seq<char> {
        self@
    }

    fn strip_bb_pointer(&self) -> (r: Option<&str>) {
        strip_bb_pointer(self)
    }

    fn is_bb_pointer(&self) -> (r: bool) {
        is_bb_pointer(self)
    }
}

impl BlackboardString for String {
    open spec fn bb_chars(&self) -> Seq<char> {
        self@
    }

    fn strip_bb_pointer(&self) -> (r: Option<&str>) {
        strip_bb_pointer(self.as_str())
    }

    fn is_bb_pointer(&self) -> (r: bool) {
        is_bb_pointer(self.as_str())
    }
}

/// A string is a blackboard pointer exactly when the braces can be stripped.
pub proof fn lemma_pointer_iff_strippable(s: Seq<char>)
    ensures
        (s.len() >= 1 && s[0] == '{' && s[s.len() - 1] == '}') <==> spec_strip_bb_pointer(s) is Some,
{
}

// ---------------------------------------------------------------------------
// Decimal integers
// ---------------------------------------------------------------------------

pub open spec fn is_digit(c: char) -> bool {
    '0' <= c && c <= '9'
}

pub open spec fn digit_value(c: char) -> int {
    c as int - '0' as int
}

/// The number that a string of decimal digits denotes.
pub open spec fn digits_value(s: Seq<char>) -> int
    decreases s.len(),
{
    if s.len() == 0 {
        0
    } else {
        digits_value(s.drop_last()) * 10 + digit_value(s.last())
    }
}

pub open spec fn all_digits(s: Seq<char>) -> bool {
    s.len() > 0 && forall|i: int| 0 <= i < s.len() ==> is_digit(#[trigger] s[i])
}

/// The integer that `s` denotes in the syntax of Rust's `FromStr` for signed
/// integers: an optional `+` or `-`, then one or more decimal digits.
pub open spec fn spec_parse_int(s: Seq<char>) -> Option<int> {
    if s.len() > 0 && (s[0] == '-' || s[0] == '+') {
        if all_digits(s.skip(1)) {
            if s[0] == '-' {
                Some(-digits_value(s.skip(1)))
            } else {
                Some(digits_value(s.skip(1)))
            }
        } else {
            None
        }
    } else if all_digits(s) {
        Some(digits_value(s))
    } else {
        None
    }
}

/// `spec_parse_int`, where the value fits in an `i64`.
pub open spec fn spec_parse_i64(s: Seq<char>) -> Option<i64> {
    match spec_parse_int(s) {
        Some(v) => if i64::MIN <= v <= i64::MAX {
            Some(v as i64)
        } else {
            None
        },
        None => None,
    }
}

proof fn lemma_digits_value_nonneg(s: Seq<char>)
    requires
        forall|i: int| 0 <= i < s.len() ==> is_digit(#[trigger] s[i]),
    ensures
        digits_value(s) >= 0,
    decreases s.len(),
{
    if s.len() > 0 {
        lemma_digits_value_nonneg(s.drop_last());
        assert(is_digit(s[s.len() - 1]));
    }
}

/// Appending digits never makes the denoted number smaller.
proof fn lemma_digits_value_monotone(s: Seq<char>, k: int)
    requires
        0 <= k <= s.len(),
        forall|i: int| 0 <= i < s.len() ==> is_digit(#[trigger] s[i]),
    ensures
        digits_value(s.subrange(0, k)) <= digits_value(s),
    decreases s.len(),
{
    if k < s.len() {
        let t = s.drop_last();
        assert(t.subrange(0, k) =~= s.subrange(0, k));
        lemma_digits_value_monotone(t, k);
        lemma_digits_value_nonneg(t);
        assert(is_digit(s[s.len() - 1]));
    } else {
        assert(s.subrange(0, k) =~= s);
    }
}

/// Parses `s` as a signed decimal integer, as Rust's `i64::from_str` does.
pub fn parse_i64(s: &str) -> (r: Option<i64>)
    ensures
        r == spec_parse_i64(s@),
{
    let n = s.unicode_len();
    if n == 0 {
        return None;
    }
    let c0 = s.get_char(0);
    let neg = c0 == '-';
    let start: usize = if c0 == '-' || c0 == '+' {
        1
    } else {
        0
    };
    if start == n {
        assert(s@.skip(1).len() == 0);
        return None;
    }
    let ghost body = s@.subrange(start as int, n as int);
    assert(start == 1 ==> body =~= s@.skip(1));
    assert(start == 0 ==> body =~= s@);
    let mut acc: i128 = 0;
    let mut i: usize = start;
    while i < n
        invariant
            start <= i <= n,
            start <= 1,
            n == s@.len(),
            start < n,
            body == s@.subrange(start as int, n as int),
            start == 1 <==> (s@[0] == '-' || s@[0] == '+'),
            start == 1 ==> body == s@.skip(1),
            start == 0 ==> body == s@,
            neg == (s@[0] == '-'),
            forall|j: int| start <= j < i ==> is_digit(#[trigger] s@[j]),
            acc == digits_value(s@.subrange(start as int, i as int)),
            0 <= acc <= 10_000_000_000_000_000_009i128,
        decreases n - i,
    {
        let c = s.get_char(i);
        if !('0' <= c && c <= '9') {
            assert(body[i - start] == c);
            assert(!all_digits(body));
            return None;
        }
        let d: i128 = (c as u32 - '0' as u32) as i128;
        let ghost prev = s@.subrange(start as int, i as int);
        let ghost next = s@.subrange(start as int, i + 1);
        assert(next.drop_last() =~= prev);
        assert(next.last() == c);
        if acc > 1_000_000_000_000_000_000i128 {
            // Every further digit only makes the number larger, so it cannot fit.
            proof {
                if all_digits(body) {
                    assert(next =~= body.subrange(0, i + 1 - start));
                    lemma_digits_value_monotone(body, i + 1 - start);
                    assert(digits_value(next) == digits_value(prev) * 10 + digit_value(c));
                    assert(digits_value(body) >= 10_000_000_000_000_000_010int);
                    if start == 1 {
                        assert(spec_parse_int(s@) == Some(
                            if neg { -digits_value(body) } else { digits_value(body) },
                        ));
                    } else {
                        assert(spec_parse_int(s@) == Some(digits_value(body)));
                    }
                }
            }
            return None;
        }
        acc = acc * 10 + d;
        i = i + 1;
    }
    assert(s@.subrange(start as int, n as int) =~= body);
    let v: i128 = if neg {
        -acc
    } else {
        acc
    };
    if v < i64::MIN as i128 || v > i64::MAX as i128 {
        None
    } else {
        Some(v as i64)
    }
}

/// Parses `"true"` and `"false"`, as Rust's `bool::from_str` does.
pub fn parse_bool(s: &str) -> (r: Option<bool>)
    ensures
        r == (if s@ == "true"@ {
            Some(true)
        } else if s@ == "false"@ {
            Some(false)
        } else {
            None
        }),
{
    if str_eq(s, "true") {
        Some(true)
    } else if str_eq(s, "false") {
        Some(false)
    } else {
        None
    }
}

// ---------------------------------------------------------------------------
// Decimal formatting
// ---------------------------------------------------------------------------

pub open spec fn digit_char(d: int) -> char {
    ('0' as int + d) as char
}

/// The decimal digits of a natural number, most significant first.
pub open spec fn nat_decimal(n: nat) -> Seq<char>
    decreases n,
{
    if n < 10 {
        seq![digit_char(n as int)]
    } else {
        nat_decimal(n / 10).push(digit_char((n % 10) as int))
    }
}

/// The decimal form of an integer, with a leading `-` when negative.
pub open spec fn int_decimal(n: int) -> Seq<char> {
    if n < 0 {
        seq!['-'] + nat_decimal((-n) as nat)
    } else {
        nat_decimal(n as nat)
    }
}

/// The decimal digits of `n` are digits that denote `n`.
pub proof fn lemma_nat_decimal_value(n: nat)
    ensures
        all_digits(nat_decimal(n)),
        digits_value(nat_decimal(n)) == n,
    decreases n,
{
    if n >= 10 {
        lemma_nat_decimal_value(n / 10);
        let t = nat_decimal(n / 10);
        let s = nat_decimal(n);
        assert(s.drop_last() =~= t);
        assert(s.last() == digit_char((n % 10) as int));
        assert(digit_value(digit_char((n % 10) as int)) == n % 10);
        assert((n / 10) * 10 + n % 10 == n) by (nonlinear_arith);
        assert(s.len() > 0);
        assert(digits_value(s) == digits_value(s.drop_last()) * 10 + digit_value(s.last()));
        assert(digits_value(s) == (n / 10) * 10 + n % 10);
        assert forall|i: int| 0 <= i < s.len() implies is_digit(#[trigger] s[i]) by {
            if i < t.len() {
                assert(s[i] == t[i]);
            }
        }
    } else {
        let s = nat_decimal(n);
        assert(s.drop_last() =~= Seq::<char>::empty());
        assert(digit_value(digit_char(n as int)) == n);
        assert(s.last() == digit_char(n as int));
        assert(digits_value(s) == digits_value(s.drop_last()) * 10 + digit_value(s.last()));
    }
}

/// Reading the decimal form of an integer gives the integer back.
pub proof fn lemma_int_decimal_round_trip(n: int)
    ensures
        spec_parse_int(int_decimal(n)) == Some(n),
{
    if n < 0 {
        let m = (-n) as nat;
        lemma_nat_decimal_value(m);
        let s = int_decimal(n);
        assert(s.skip(1) =~= nat_decimal(m));
        assert(s[0] == '-');
    } else {
        lemma_nat_decimal_value(n as nat);
        let s = nat_decimal(n as nat);
        assert(is_digit(s[0]));
    }
}

fn digit_str(d: u64) -> (r: &'static str)
    requires
        d < 10,
    ensures
        r@ == seq![digit_char(d as int)],
{
    proof {
        reveal_strlit("0");
        reveal_strlit("1");
        reveal_strlit("2");
        reveal_strlit("3");
        reveal_strlit("4");
        reveal_strlit("5");
        reveal_strlit("6");
        reveal_strlit("7");
        reveal_strlit("8");
        reveal_strlit("9");
    }
    let r = match d {
        0 => "0",
        1 => "1",
        2 => "2",
        3 => "3",
        4 => "4",
        5 => "5",
        6 => "6",
        7 => "7",
        8 => "8",
        _ => "9",
    };
    assert(r@ =~= seq![digit_char(d as int)]);
    r
}

/// The decimal form of an unsigned integer.
pub fn u64_to_string(n: u64) -> (r: String)
    ensures
        r@ == nat_decimal(n as nat),
    decreases n,
{
    if n < 10 {
        String::from_str(digit_str(n))
    } else {
        let mut s = u64_to_string(n / 10);
        s.append(digit_str(n % 10));
        s
    }
}

/// The decimal form of a signed integer, as `i64::to_string` writes it.
pub fn i64_to_string(n: i64) -> (r: String)
    ensures
        r@ == int_decimal(n as int),
{
    if n < 0 {
        let m: u64 = (0i128 - n as i128) as u64;
        let mut s = String::from_str("-");
        proof {
            reveal_strlit("-");
        }
        let digits = u64_to_string(m);
        s.append(digits.as_str());
        assert(s@ =~= seq!['-'] + nat_decimal((-n) as nat));
        s
    } else {
        u64_to_string(n as u64)
    }
}

/// Concatenation of two strings.
pub fn concat(a: &str, b: &str) -> (r: String)
    ensures
        r@ == a@ + b@,
{
    let mut s = String::from_str(a);
    s.append(b);
    s
}

} // verus!
