//! Text of cell values: how a value is read from text and written back.
//!
//! Everything here works on the characters of a string. A string's view is
//! its sequence of characters, and the specifications below are functions of
//! that sequence alone.

use vstd::prelude::*;

verus! {

/// Whether `c` is one of the ten decimal digits.
pub open spec fn is_digit(c: char) -> bool {
    '0' <= c && c <= '9'
}

/// The number that the decimal digit `c` stands for.
pub open spec fn digit_value(c: char) -> int {
    c as int - '0' as int
}

/// The decimal digit that stands for `d`, for `d` below ten.
pub open spec fn digit_char(d: int) -> char {
    if d == 0 {
        '0'
    } else if d == 1 {
        '1'
    } else if d == 2 {
        '2'
    } else if d == 3 {
        '3'
    } else if d == 4 {
        '4'
    } else if d == 5 {
        '5'
    } else if d == 6 {
        '6'
    } else if d == 7 {
        '7'
    } else if d == 8 {
        '8'
    } else {
        '9'
    }
}

/// Whether every character of `s` is a decimal digit.
pub open spec fn all_digits(s: Seq<char>) -> bool {
    forall|i: int| 0 <= i < s.len() ==> is_digit(#[trigger] s[i])
}

/// The number written by the digit string `s`, most significant digit first.
pub open spec fn digits_value(s: Seq<char>) -> int
    decreases s.len(),
{
    if s.len() == 0 {
        0
    } else {
        digits_value(s.drop_last()) * 10 + digit_value(s.last())
    }
}

/// Whether `c` is a sign character.
pub open spec fn is_sign(c: char) -> bool {
    c == '+' || c == '-'
}

/// The integer that `s` denotes: an optional sign, then one or more decimal
/// digits, with a value that fits in 32 bits. `None` for any other text.
pub open spec fn int_of_text(s: Seq<char>) -> Option<i32> {
    if s.len() == 0 {
        None
    } else {
        let body = if is_sign(s[0]) {
            s.subrange(1, s.len() as int)
        } else {
            s
        };
        let magnitude = digits_value(body);
        let value = if s[0] == '-' {
            -magnitude
        } else {
            magnitude
        };
        if body.len() > 0 && all_digits(body) && i32::MIN <= value <= i32::MAX {
            Some(value as i32)
        } else {
            None
        }
    }
}

/// The decimal digits of `n`, most significant first, without leading zeros.
pub open spec fn digits_of(n: nat) -> Seq<char>
    decreases n,
{
    if n < 10 {
        seq![digit_char(n as int)]
    } else {
        digits_of(n / 10).push(digit_char((n % 10) as int))
    }
}

/// The canonical text of the integer `v`: a minus sign when negative, then
/// its decimal digits.
pub open spec fn text_of_int(v: int) -> Seq<char> {
    if v < 0 {
        seq!['-'] + digits_of((-v) as nat)
    } else {
        digits_of(v as nat)
    }
}

/// The characters of the word `true`.
pub open spec fn true_text() -> Seq<char> {
    seq!['t', 'r', 'u', 'e']
}

/// The characters of the word `false`.
pub open spec fn false_text() -> Seq<char> {
    seq!['f', 'a', 'l', 's', 'e']
}

/// The truth value that `s` denotes: exactly `true` or `false`.
pub open spec fn bool_of_text(s: Seq<char>) -> Option<bool> {
    if s == true_text() {
        Some(true)
    } else if s == false_text() {
        Some(false)
    } else {
        None
    }
}

/// The text of a truth value.
pub open spec fn text_of_bool(b: bool) -> Seq<char> {
    if b {
        true_text()
    } else {
        false_text()
    }
}

/// `c` with an upper-case ASCII letter replaced by its lower-case form.
pub open spec fn ascii_lower(c: char) -> char {
    if 'A' <= c && c <= 'Z' {
        ((c as u8) + 32) as char
    } else {
        c
    }
}

/// `s` with every upper-case ASCII letter replaced by its lower-case form.
pub open spec fn lower_text(s: Seq<char>) -> Seq<char> {
    Seq::new(s.len(), |i: int| ascii_lower(s[i]))
}

/// The index of the first character of `s` at or after `from` that is not a
/// digit, or the length of `s` when every character from there on is one.
pub open spec fn digits_end(s: Seq<char>, from: int) -> int
    decreases s.len() - from,
{
    if 0 <= from < s.len() && is_digit(s[from]) {
        digits_end(s, from + 1)
    } else {
        from
    }
}

/// Whether `s` from index `from` to its end is a decimal exponent: the
/// letter `e` in either case, an optional sign, and one or more digits.
pub open spec fn is_exponent(s: Seq<char>, from: int) -> bool {
    &&& 0 <= from < s.len()
    &&& (s[from] == 'e' || s[from] == 'E')
    &&& {
        let start = if from + 1 < s.len() && is_sign(s[from + 1]) {
            from + 2
        } else {
            from + 1
        };
        start < s.len() && digits_end(s, start) == s.len()
    }
}

/// Whether `s` is an unsigned decimal number: digits with at most one
/// point among them, at least one digit in all, and an optional exponent.
pub open spec fn is_decimal_number(s: Seq<char>) -> bool {
    let int_end = digits_end(s, 0);
    let has_point = int_end < s.len() && s[int_end] == '.';
    let frac_start = if has_point {
        int_end + 1
    } else {
        int_end
    };
    let frac_end = digits_end(s, frac_start);
    &&& int_end + (frac_end - frac_start) >= 1
    &&& (frac_end == s.len() || is_exponent(s, frac_end))
}

/// Whether `s` names an infinity or a not-a-number, in any mix of cases.
pub open spec fn is_special_float(s: Seq<char>) -> bool {
    let l = lower_text(s);
    ||| l == seq!['i', 'n', 'f']
    ||| l == seq!['i', 'n', 'f', 'i', 'n', 'i', 't', 'y']
    ||| l == seq!['n', 'a', 'n']
}

/// Whether `s` is a floating-point literal: an optional sign, then either a
/// decimal number or the name of a special value.
pub open spec fn is_float_text(s: Seq<char>) -> bool {
    let body = if s.len() > 0 && is_sign(s[0]) {
        s.subrange(1, s.len() as int)
    } else {
        s
    };
    is_decimal_number(body) || is_special_float(body)
}

/// The characters of `s`, in order.
pub fn chars_of(s: &str) -> (v: Vec<char>)
    ensures
        v@ == s@,
{
    let mut v: Vec<char> = Vec::new();
    for c in it: s.chars()
        invariant
            it.seq() == s@,
            v@ == it.seq().take(it.index()),
    {
        v.push(c);
    }
    v
}

/// Whether two character vectors hold the same characters.
pub fn same_chars(a: &Vec<char>, b: &Vec<char>) -> (r: bool)
    ensures
        r == (a@ == b@),
{
    if a.len() != b.len() {
        return false;
    }
    let mut i: usize = 0;
    while i < a.len()
        invariant
            a.len() == b.len(),
            i <= a.len(),
            forall|j: int| 0 <= j < i ==> a@[j] == b@[j],
        decreases a.len() - i,
    {
        if a[i] != b[i] {
            return false;
        }
        i += 1;
    }
    assert(a@ =~= b@);
    true
}

/// Whether `c` is a decimal digit.
pub fn char_is_digit(c: char) -> (r: bool)
    ensures
        r == is_digit(c),
{
    '0' <= c && c <= '9'
}

/// The number that the digit `c` stands for.
pub fn char_digit_value(c: char) -> (d: u8)
    requires
        is_digit(c),
    ensures
        d == digit_value(c),
        d < 10,
{
    (c as u8) - 48
}

/// Extending a digit string by one digit multiplies its value by ten and
/// adds the digit.
pub proof fn lemma_digits_value_step(s: Seq<char>, k: int)
    requires
        0 <= k < s.len(),
    ensures
        digits_value(s.take(k + 1)) == digits_value(s.take(k)) * 10 + digit_value(s[k]),
{
    assert(s.take(k + 1).drop_last() =~= s.take(k));
    assert(s.take(k + 1).last() == s[k]);
}

/// Reads a 32-bit integer from text: an optional sign, then decimal digits.
pub fn parse_int(s: &str) -> (r: Option<i32>)
    ensures
        r == int_of_text(s@),
{
    let v = chars_of(s);
    let n = v.len();
    if n == 0 {
        return None;
    }
    let negative = v[0] == '-';
    let start: usize = if v[0] == '+' || v[0] == '-' {
        1
    } else {
        0
    };
    let ghost body = if is_sign(v@[0]) {
        v@.subrange(1, n as int)
    } else {
        v@
    };
    assert(body =~= v@.subrange(start as int, n as int));
    if start == n {
        return None;
    }
    let mut acc: i64 = 0;
    let mut too_large = false;
    let mut i: usize = start;
    while i < n
        invariant
            start <= i <= n,
            n == v.len(),
            n > 0,
            v@ == s@,
            body == v@.subrange(start as int, n as int),
            body == if is_sign(v@[0]) {
                v@.subrange(1, n as int)
            } else {
                v@
            },
            all_digits(body.take(i - start)),
            !too_large ==> acc == digits_value(body.take(i - start)) && 0 <= acc <= 2147483648,
            too_large ==> digits_value(body.take(i - start)) > 2147483648,
        decreases n - i,
    {
        let c = v[i];
        assert(body[i - start] == c);
        if !char_is_digit(c) {
            assert(!is_digit(body[i - start]));
            return None;
        }
        let d = char_digit_value(c);
        proof {
            lemma_digits_value_step(body, i - start);
            assert forall|j: int| 0 <= j < body.take(i - start + 1).len() implies is_digit(
                #[trigger] body.take(i - start + 1)[j],
            ) by {
                if j < i - start {
                    assert(body.take(i - start)[j] == body[j]);
                }
            }
        }
        if !too_large {
            acc = acc * 10 + d as i64;
            if acc > 2147483648 {
                too_large = true;
            }
        }
        i += 1;
    }
    assert(body.take(n - start) =~= body);
    if too_large {
        return None;
    }
    let value: i64 = if negative {
        -acc
    } else {
        acc
    };
    if value > 2147483647 {
        None
    } else {
        Some(value as i32)
    }
}

/// The one-character text of the digit `d`.
fn digit_text(d: u8) -> (t: &'static str)
    requires
        d < 10,
    ensures
        t@ == seq![digit_char(d as int)],
{
    proof {
        reveal_strlit("0");
        reveal_strlit("1");
        reveal_strlit("2");
        reveal_strlit("3");
        reveal_strlit("4");
        reveal_strlit("5");
        reveal_strlit("6");
        reveal_strlit("7");
        reveal_strlit("8");
        reveal_strlit("9");
    }
    let t = if d == 0 {
        "0"
    } else if d == 1 {
        "1"
    } else if d == 2 {
        "2"
    } else if d == 3 {
        "3"
    } else if d == 4 {
        "4"
    } else if d == 5 {
        "5"
    } else if d == 6 {
        "6"
    } else if d == 7 {
        "7"
    } else if d == 8 {
        "8"
    } else {
        "9"
    };
    assert(t@ =~= seq![digit_char(d as int)]);
    t
}

/// Appends the decimal digits of `n` to `s`.
fn push_digits(s: &mut String, n: u32)
    ensures
        final(s)@ == old(s)@ + digits_of(n as nat),
    decreases n,
{
    if n >= 10 {
        push_digits(s, n / 10);
    }
    s.append(digit_text((n % 10) as u8));
    assert(s@ =~= old(s)@ + digits_of(n as nat));
}

/// Writes an integer as text: a minus sign when negative, then its digits.
pub fn int_to_text(v: i32) -> (s: String)
    ensures
        s@ == text_of_int(v as int),
{
    let mut s = String::new();
    let magnitude: u32 = if v < 0 {
        proof {
            reveal_strlit("-");
        }
        s.append("-");
        (-(v as i64)) as u32
    } else {
        v as u32
    };
    push_digits(&mut s, magnitude);
    assert(s@ =~= text_of_int(v as int));
    s
}

/// Reads a truth value from text: exactly `true` or `false`.
pub fn parse_bool(s: &str) -> (r: Option<bool>)
    ensures
        r == bool_of_text(s@),
{
    let v = chars_of(s);
    let t: Vec<char> = vec!['t', 'r', 'u', 'e'];
    let f: Vec<char> = vec!['f', 'a', 'l', 's', 'e'];
    assert(t@ =~= true_text());
    assert(f@ =~= false_text());
    if same_chars(&v, &t) {
        Some(true)
    } else if same_chars(&v, &f) {
        Some(false)
    } else {
        None
    }
}

/// Writes a truth value as text.
pub fn bool_to_text(b: bool) -> (s: String)
    ensures
        s@ == text_of_bool(b),
{
    proof {
        reveal_strlit("true");
        reveal_strlit("false");
    }
    let t = if b {
        "true"
    } else {
        "false"
    };
    assert(t@ =~= text_of_bool(b));
    t.to_owned()
}

/// The lower-case form of `c` when it is an upper-case ASCII letter.
pub fn char_ascii_lower(c: char) -> (r: char)
    ensures
        r == ascii_lower(c),
{
    if 'A' <= c && c <= 'Z' {
        ((c as u8) + 32) as char
    } else {
        c
    }
}

/// The characters of `v` with ASCII letters in lower case.
pub fn lower_chars(v: &Vec<char>) -> (r: Vec<char>)
    ensures
        r@ == lower_text(v@),
{
    let mut r: Vec<char> = Vec::new();
    let mut i: usize = 0;
    while i < v.len()
        invariant
            i <= v.len(),
            r.len() == i,
            forall|j: int| 0 <= j < i ==> r@[j] == ascii_lower(v@[j]),
        decreases v.len() - i,
    {
        r.push(char_ascii_lower(v[i]));
        i += 1;
    }
    assert(r@ =~= lower_text(v@));
    r
}

/// The end of the run of digits that starts at `from`.
fn scan_digits(v: &Vec<char>, from: usize) -> (end: usize)
    requires
        from <= v.len(),
    ensures
        end == digits_end(v@, from as int),
        from <= end <= v.len(),
{
    let mut i: usize = from;
    while i < v.len() && char_is_digit(v[i])
        invariant
            from <= i <= v.len(),
            digits_end(v@, from as int) == digits_end(v@, i as int),
        decreases v.len() - i,
    {
        i += 1;
    }
    i
}

/// Whether `v` from `from` on is a decimal exponent.
fn scan_exponent(v: &Vec<char>, from: usize) -> (r: bool)
    requires
        from < v.len(),
    ensures
        r == is_exponent(v@, from as int),
{
    if v[from] != 'e' && v[from] != 'E' {
        return false;
    }
    let start: usize = if from + 1 < v.len() && (v[from + 1] == '+' || v[from + 1] == '-') {
        from + 2
    } else {
        from + 1
    };
    if start >= v.len() {
        return false;
    }
    scan_digits(v, start) == v.len()
}

/// Whether `v` is an unsigned decimal number.
fn scan_decimal_number(v: &Vec<char>) -> (r: bool)
    ensures
        r == is_decimal_number(v@),
{
    let int_end = scan_digits(v, 0);
    let has_point = int_end < v.len() && v[int_end] == '.';
    let frac_start: usize = if has_point {
        int_end + 1
    } else {
        int_end
    };
    let frac_end = scan_digits(v, frac_start);
    if int_end + (frac_end - frac_start) < 1 {
        return false;
    }
    if frac_end == v.len() {
        return true;
    }
    scan_exponent(v, frac_end)
}

/// Whether `v` names an infinity or a not-a-number.
fn scan_special_float(v: &Vec<char>) -> (r: bool)
    ensures
        r == is_special_float(v@),
{
    let l = lower_chars(v);
    let inf: Vec<char> = vec!['i', 'n', 'f'];
    let infinity: Vec<char> = vec!['i', 'n', 'f', 'i', 'n', 'i', 't', 'y'];
    let nan: Vec<char> = vec!['n', 'a', 'n'];
    assert(inf@ =~= seq!['i', 'n', 'f']);
    assert(infinity@ =~= seq!['i', 'n', 'f', 'i', 'n', 'i', 't', 'y']);
    assert(nan@ =~= seq!['n', 'a', 'n']);
    same_chars(&l, &inf) || same_chars(&l, &infinity) || same_chars(&l, &nan)
}

/// Whether `s` is a floating-point literal.
pub fn is_float_literal(s: &str) -> (r: bool)
    ensures
        r == is_float_text(s@),
{
    let v = chars_of(s);
    let start: usize = if v.len() > 0 && (v[0] == '+' || v[0] == '-') {
        1
    } else {
        0
    };
    let mut body: Vec<char> = Vec::new();
    let mut i: usize = start;
    while i < v.len()
        invariant
            start <= i <= v.len(),
            body@ == v@.subrange(start as int, i as int),
        decreases v.len() - i,
    {
        body.push(v[i]);
        assert(body@ =~= v@.subrange(start as int, i + 1));
        i += 1;
    }
    assert(start == 0 ==> body@ =~= v@);
    scan_decimal_number(&body) || scan_special_float(&body)
}

} // verus!
