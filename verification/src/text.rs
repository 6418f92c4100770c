//! Character-level helpers shared by the rest of the library: building
//! strings, decimal formatting, whitespace trimming and joining.

use vstd::prelude::*;
use vstd::string::*;

verus! {

/// Appends one character to a string.
///
/// Trusted: `String::push` appends `c` at the end of the string.
#[verifier::external_body]
pub(crate) fn push_char(s: &mut String, c: char)
    ensures
        final(s)@ == old(s)@.push(c),
{
    s.push(c);
}

/// The characters of `s`, in order.
pub fn chars_of(s: &str) -> (res: Vec<char>)
    ensures
        res@ == s@,
{
    let n = s.unicode_len();
    let mut res: Vec<char> = Vec::new();
    let mut i: usize = 0;
    while i < n
        invariant
            n == s@.len(),
            i <= n,
            res@ == s@.subrange(0, i as int),
        decreases n - i,
    {
        res.push(s.get_char(i));
        i = i + 1;
    }
    assert(res@ == s@.subrange(0, n as int));
    res
}

/// A string holding exactly the characters of `cs[from..to]`.
pub fn string_from_range(cs: &Vec<char>, from: usize, to: usize) -> (res: String)
    requires
        from <= to <= cs@.len(),
    ensures
        res@ == cs@.subrange(from as int, to as int),
{
    let mut res = String::new();
    let mut i = from;
    while i < to
        invariant
            from <= i <= to,
            to <= cs@.len(),
            res@ == cs@.subrange(from as int, i as int),
        decreases to - i,
    {
        push_char(&mut res, cs[i]);
        assert(cs@.subrange(from as int, i + 1) == cs@.subrange(from as int, i as int).push(
            cs@[i as int],
        ));
        i = i + 1;
    }
    res
}

/// A string holding exactly the characters of `cs`.
pub fn string_from_chars(cs: &Vec<char>) -> (res: String)
    ensures
        res@ == cs@,
{
    let res = string_from_range(cs, 0, cs.len());
    assert(cs@.subrange(0, cs@.len() as int) == cs@);
    res
}

/// Appends `t` to `s`.
pub fn append_str(s: &mut String, t: &str)
    ensures
        final(s)@ == old(s)@ + t@,
{
    s.append(t);
}

// ------------------------------------------------------------------------------------------
// Decimal numbers
// ------------------------------------------------------------------------------------------

/// The ASCII digit for `d < 10`.
pub open spec fn digit_char(d: nat) -> char {
    if d == 0 { '0' }
    else if d == 1 { '1' }
    else if d == 2 { '2' }
    else if d == 3 { '3' }
    else if d == 4 { '4' }
    else if d == 5 { '5' }
    else if d == 6 { '6' }
    else if d == 7 { '7' }
    else if d == 8 { '8' }
    else { '9' }
}

/// The shortest decimal representation of `n`, as `format!("{n}")` prints it.
pub open spec fn decimal(n: nat) -> Seq<char>
    decreases n,
{
    if n < 10 {
        seq![digit_char(n)]
    } else {
        decimal(n / 10).push(digit_char(n % 10))
    }
}

/// The decimal representation of `n` is made of digits and reads back as `n`.
pub proof fn lemma_decimal_digits(n: nat)
    ensures
        decimal(n).len() > 0,
        all_digits(decimal(n)),
        digits_value(decimal(n)) == n,
    decreases n,
{
    if n < 10 {
        let s = decimal(n);
        assert(s.drop_last() =~= Seq::<char>::empty());
        assert(digit_value(digit_char(n)) == n);
        assert(is_ascii_digit(s[0]));
        assert(digits_value(s.drop_last()) == 0);
        assert(s.last() == digit_char(n));
        assert(digits_value(s) == digits_value(s.drop_last()) * 10 + digit_value(s.last()));
    } else {
        lemma_decimal_digits(n / 10);
        let s = decimal(n);
        let t = decimal(n / 10);
        assert(s.drop_last() =~= t);
        assert(digit_value(digit_char(n % 10)) == n % 10);
        assert(s.last() == digit_char(n % 10));
        assert(digits_value(s) == digits_value(s.drop_last()) * 10 + digit_value(s.last()));
        assert((n / 10) * 10 + n % 10 == n);
        assert forall|i: int| 0 <= i < s.len() implies #[trigger] is_ascii_digit(s[i]) by {
            if i < t.len() {
                assert(s[i] == t[i]);
            } else {
                assert(s[i] == digit_char(n % 10));
            }
        }
    }
}

/// Different numbers have different decimal representations.
pub proof fn lemma_decimal_injective(a: nat, b: nat)
    requires
        decimal(a) == decimal(b),
    ensures
        a == b,
{
    lemma_decimal_digits(a);
    lemma_decimal_digits(b);
}

fn digit_char_exec(d: u64) -> (c: char)
    requires
        d < 10,
    ensures
        c == digit_char(d as nat),
{
    if d == 0 { '0' }
    else if d == 1 { '1' }
    else if d == 2 { '2' }
    else if d == 3 { '3' }
    else if d == 4 { '4' }
    else if d == 5 { '5' }
    else if d == 6 { '6' }
    else if d == 7 { '7' }
    else if d == 8 { '8' }
    else { '9' }
}

/// Appends the decimal representation of `n` to `s`.
pub fn push_decimal(s: &mut String, n: u64)
    ensures
        final(s)@ == old(s)@ + decimal(n as nat),
    decreases n,
{
    if n < 10 {
        push_char(s, digit_char_exec(n));
        assert(old(s)@.push(digit_char(n as nat)) == old(s)@ + seq![digit_char(n as nat)]);
    } else {
        push_decimal(s, n / 10);
        push_char(s, digit_char_exec(n % 10));
        assert(old(s)@ + decimal((n / 10) as nat).push(digit_char((n % 10) as nat)) == (old(s)@
            + decimal((n / 10) as nat)).push(digit_char((n % 10) as nat)));
    }
}

/// The decimal representation of `n`.
pub fn u64_to_decimal(n: u64) -> (res: String)
    ensures
        res@ == decimal(n as nat),
{
    let mut s = String::new();
    push_decimal(&mut s, n);
    assert(Seq::<char>::empty() + decimal(n as nat) == decimal(n as nat));
    s
}


// ------------------------------------------------------------------------------------------
// Whitespace and trimming
// ------------------------------------------------------------------------------------------

/// Unicode `White_Space`, the property that `char::is_whitespace` tests.
pub open spec fn is_unicode_whitespace(c: char) -> bool {
    let u = c as u32;
    ||| 0x09 <= u <= 0x0D
    ||| u == 0x20
    ||| u == 0x85
    ||| u == 0xA0
    ||| u == 0x1680
    ||| 0x2000 <= u <= 0x200A
    ||| u == 0x2028
    ||| u == 0x2029
    ||| u == 0x202F
    ||| u == 0x205F
    ||| u == 0x3000
}

/// Tests `is_unicode_whitespace`.
pub fn is_whitespace(c: char) -> (b: bool)
    ensures
        b == is_unicode_whitespace(c),
{
    let u = c as u32;
    (0x09 <= u && u <= 0x0D) || u == 0x20 || u == 0x85 || u == 0xA0 || u == 0x1680 || (0x2000
        <= u && u <= 0x200A) || u == 0x2028 || u == 0x2029 || u == 0x202F || u == 0x205F || u
        == 0x3000
}

/// `s` without its leading whitespace.
pub open spec fn trim_start(s: Seq<char>) -> Seq<char>
    decreases s.len(),
{
    if s.len() > 0 && is_unicode_whitespace(s[0]) {
        trim_start(s.drop_first())
    } else {
        s
    }
}

/// `s` without its trailing whitespace.
pub open spec fn trim_end(s: Seq<char>) -> Seq<char>
    decreases s.len(),
{
    if s.len() > 0 && is_unicode_whitespace(s.last()) {
        trim_end(s.drop_last())
    } else {
        s
    }
}

/// `s` without leading and trailing whitespace, as `str::trim` returns it.
pub open spec fn trim(s: Seq<char>) -> Seq<char> {
    trim_end(trim_start(s))
}

/// The bounds `(a, b)` of the trimmed part of `cs`.
pub fn trim_bounds(cs: &Vec<char>) -> (res: (usize, usize))
    ensures
        res.0 <= res.1 <= cs@.len(),
        cs@.subrange(res.0 as int, res.1 as int) == trim(cs@),
{
    let n = cs.len();
    let mut a: usize = 0;
    assert(cs@.subrange(0, n as int) == cs@);
    while a < n && is_whitespace(cs[a])
        invariant
            a <= n,
            n == cs@.len(),
            trim_start(cs@) == trim_start(cs@.subrange(a as int, n as int)),
        decreases n - a,
    {
        assert(cs@.subrange(a as int, n as int).drop_first() == cs@.subrange(a + 1, n as int));
        a = a + 1;
    }
    assert(trim_start(cs@) == cs@.subrange(a as int, n as int));
    let mut b: usize = n;
    while b > a && is_whitespace(cs[b - 1])
        invariant
            a <= b <= n,
            n == cs@.len(),
            trim(cs@) == trim_end(cs@.subrange(a as int, b as int)),
        decreases b,
    {
        assert(cs@.subrange(a as int, b as int).drop_last() == cs@.subrange(a as int, b - 1));
        b = b - 1;
    }
    (a, b)
}

/// `s` with leading and trailing whitespace removed.
pub fn trim_string(s: &str) -> (res: String)
    ensures
        res@ == trim(s@),
{
    let cs = chars_of(s);
    let (a, b) = trim_bounds(&cs);
    string_from_range(&cs, a, b)
}

// ------------------------------------------------------------------------------------------
// Joining
// ------------------------------------------------------------------------------------------

/// The elements of `list` separated by `sep`.
pub open spec fn join(list: Seq<Seq<char>>, sep: Seq<char>) -> Seq<char>
    decreases list.len(),
{
    if list.len() == 0 {
        Seq::empty()
    } else if list.len() == 1 {
        list[0]
    } else {
        join(list.drop_last(), sep) + sep + list.last()
    }
}

/// The views of a list of strings.
pub open spec fn views(v: Seq<String>) -> Seq<Seq<char>> {
    v.map_values(|s: String| s@)
}

/// The strings of `list[from..to]` separated by `sep`.
pub fn join_range(list: &Vec<String>, from: usize, to: usize, sep: &str) -> (res: String)
    requires
        from <= to <= list@.len(),
    ensures
        res@ == join(views(list@.subrange(from as int, to as int)), sep@),
{
    let mut res = String::new();
    let mut i = from;
    while i < to
        invariant
            from <= i <= to <= list@.len(),
            res@ == join(views(list@.subrange(from as int, i as int)), sep@),
        decreases to - i,
    {
        let ghost before = views(list@.subrange(from as int, i as int));
        let ghost after = views(list@.subrange(from as int, i + 1));
        assert(after.drop_last() == before);
        assert(after.last() == list@[i as int]@);
        if i != from {
            res.append(sep);
        } else {
            assert(after.len() == 1);
        }
        res.append(list[i].as_str());
        i = i + 1;
    }
    res
}

/// The strings of `list` separated by `sep`.
pub fn join_strings(list: &Vec<String>, sep: &str) -> (res: String)
    ensures
        res@ == join(views(list@), sep@),
{
    let res = join_range(list, 0, list.len(), sep);
    assert(list@.subrange(0, list@.len() as int) == list@);
    res
}


// ------------------------------------------------------------------------------------------
// Comparing and case
// ------------------------------------------------------------------------------------------

/// Whether `cs[from..to]` holds exactly the characters of `lit`.
pub fn range_eq_str(cs: &Vec<char>, from: usize, to: usize, lit: &str) -> (b: bool)
    requires
        from <= to <= cs@.len(),
    ensures
        b == (cs@.subrange(from as int, to as int) == lit@),
{
    let l = chars_of(lit);
    if to - from != l.len() {
        return false;
    }
    let mut i: usize = 0;
    while i < l.len()
        invariant
            from <= to <= cs@.len(),
            to - from == l@.len(),
            l@ == lit@,
            i <= l@.len(),
            forall|k: int| 0 <= k < i ==> cs@[from + k] == l@[k],
        decreases l@.len() - i,
    {
        if cs[from + i] != l[i] {
            assert(cs@.subrange(from as int, to as int)[i as int] != lit@[i as int]);
            return false;
        }
        i = i + 1;
    }
    assert(cs@.subrange(from as int, to as int) == l@);
    true
}

/// `c` with `A`-`Z` mapped to `a`-`z`, as `char::to_ascii_lowercase` does.
pub open spec fn ascii_lower(c: char) -> char {
    if 'A' <= c <= 'Z' {
        ((c as u32) + 32) as char
    } else {
        c
    }
}

/// `s` with ASCII letters lowered, as `str::to_ascii_lowercase` does.
pub open spec fn ascii_lower_seq(s: Seq<char>) -> Seq<char> {
    s.map_values(|c: char| ascii_lower(c))
}

/// `c` raised when it is an ASCII lower-case letter, as
/// `char::to_ascii_uppercase` does.
pub open spec fn ascii_upper(c: char) -> char {
    if 'a' <= c <= 'z' {
        ((c as u32) - 32) as char
    } else {
        c
    }
}

/// `s` with ASCII letters raised, as `str::to_ascii_uppercase` does.
pub open spec fn ascii_upper_seq(s: Seq<char>) -> Seq<char> {
    s.map_values(|c: char| ascii_upper(c))
}

/// Lowering forgets any raising before it.
pub proof fn lemma_lower_of_upper(s: Seq<char>)
    ensures
        ascii_lower_seq(ascii_upper_seq(s)) == ascii_lower_seq(s),
{
    assert forall|i: int| 0 <= i < s.len() implies #[trigger] ascii_lower(ascii_upper(s[i]))
        == ascii_lower(s[i]) by {
        let c = s[i];
        if 'a' <= c <= 'z' {
            let u = ((c as u32) - 32) as char;
            assert(u as u32 == (c as u32) - 32);
            assert('A' <= u <= 'Z');
            assert(((u as u32) + 32) as char == c);
        }
    }
    assert(ascii_lower_seq(ascii_upper_seq(s)) =~= ascii_lower_seq(s));
}

/// Lowers an ASCII letter.
pub fn to_ascii_lower(c: char) -> (r: char)
    ensures
        r == ascii_lower(c),
{
    if 'A' <= c && c <= 'Z' {
        let b = (c as u8) + 32;
        b as char
    } else {
        c
    }
}

/// The characters of `s` with ASCII letters lowered.
pub fn ascii_lower_chars(s: &str) -> (res: Vec<char>)
    ensures
        res@ == ascii_lower_seq(s@),
{
    let cs = chars_of(s);
    let mut res: Vec<char> = Vec::new();
    let mut i: usize = 0;
    while i < cs.len()
        invariant
            cs@ == s@,
            i <= cs@.len(),
            res@ == ascii_lower_seq(cs@.subrange(0, i as int)),
        decreases cs@.len() - i,
    {
        res.push(to_ascii_lower(cs[i]));
        assert(ascii_lower_seq(cs@.subrange(0, i + 1)) == ascii_lower_seq(
            cs@.subrange(0, i as int),
        ).push(ascii_lower(cs@[i as int])));
        i = i + 1;
    }
    assert(cs@.subrange(0, cs@.len() as int) == cs@);
    res
}


// ------------------------------------------------------------------------------------------
// Splitting into words
// ------------------------------------------------------------------------------------------

/// The length of the run of non-whitespace characters at the front of `s`.
pub open spec fn word_len(s: Seq<char>) -> nat
    decreases s.len(),
{
    if s.len() == 0 || is_unicode_whitespace(s[0]) {
        0
    } else {
        1 + word_len(s.drop_first())
    }
}

pub proof fn lemma_word_len_bound(s: Seq<char>)
    ensures
        word_len(s) <= s.len(),
        s.len() > 0 && !is_unicode_whitespace(s[0]) ==> word_len(s) >= 1,
    decreases s.len(),
{
    if s.len() > 0 && !is_unicode_whitespace(s[0]) {
        lemma_word_len_bound(s.drop_first());
    }
}

/// The words of `s`, as `str::split_whitespace` yields them.
pub open spec fn words(s: Seq<char>) -> Seq<Seq<char>>
    decreases s.len(),
{
    if s.len() == 0 {
        Seq::empty()
    } else if is_unicode_whitespace(s[0]) {
        words(s.drop_first())
    } else {
        proof {
            lemma_word_len_bound(s);
        }
        seq![s.take(word_len(s) as int)] + words(s.skip(word_len(s) as int))
    }
}

/// Finds the next word of `cs` at or after `i`: its bounds, or `None` when
/// only whitespace is left.
pub fn next_word(cs: &Vec<char>, i: usize) -> (res: Option<(usize, usize)>)
    requires
        i <= cs@.len(),
    ensures
        res is None ==> words(cs@.skip(i as int)) == Seq::<Seq<char>>::empty(),
        res matches Some((a, b)) ==> i <= a < b <= cs@.len() && words(cs@.skip(i as int)) == seq![
            cs@.subrange(a as int, b as int),
        ] + words(cs@.skip(b as int)),
{
    let n = cs.len();
    let mut a = i;
    while a < n && is_whitespace(cs[a])
        invariant
            i <= a <= n,
            n == cs@.len(),
            words(cs@.skip(i as int)) == words(cs@.skip(a as int)),
        decreases n - a,
    {
        assert(cs@.skip(a as int).drop_first() == cs@.skip(a + 1));
        a = a + 1;
    }
    if a == n {
        assert(cs@.skip(a as int).len() == 0);
        return None;
    }
    let mut b = a;
    while b < n && !is_whitespace(cs[b])
        invariant
            a <= b <= n,
            n == cs@.len(),
            word_len(cs@.skip(a as int)) == (b - a) + word_len(cs@.skip(b as int)),
        decreases n - b,
    {
        assert(cs@.skip(b as int).drop_first() == cs@.skip(b + 1));
        b = b + 1;
    }
    assert(word_len(cs@.skip(b as int)) == 0);
    let ghost t = cs@.skip(a as int);
    assert(!is_unicode_whitespace(t[0]));
    assert(t.take((b - a) as int) == cs@.subrange(a as int, b as int));
    assert(t.skip((b - a) as int) == cs@.skip(b as int));
    Some((a, b))
}


// ------------------------------------------------------------------------------------------
// Reading decimal numbers
// ------------------------------------------------------------------------------------------

/// An ASCII digit, as `\d` matches it without Unicode.
pub open spec fn is_ascii_digit(c: char) -> bool {
    '0' <= c <= '9'
}

/// All characters of `s` are ASCII digits.
pub open spec fn all_digits(s: Seq<char>) -> bool {
    forall|i: int| 0 <= i < s.len() ==> #[trigger] is_ascii_digit(s[i])
}

/// The value of the ASCII digit `c`.
pub open spec fn digit_value(c: char) -> nat {
    ((c as u32) - ('0' as u32)) as nat
}

/// The value of a run of ASCII digits, read in base 10.
pub open spec fn digits_value(s: Seq<char>) -> nat
    decreases s.len(),
{
    if s.len() == 0 {
        0
    } else {
        digits_value(s.drop_last()) * 10 + digit_value(s.last())
    }
}

/// The value of `cs[from..to]`, all ASCII digits, when it is at most `max`.
pub fn parse_digits(cs: &Vec<char>, from: usize, to: usize, max: u64) -> (res: Option<u64>)
    requires
        from <= to <= cs@.len(),
        all_digits(cs@.subrange(from as int, to as int)),
    ensures
        res is Some <==> digits_value(cs@.subrange(from as int, to as int)) <= max,
        res matches Some(v) ==> v == digits_value(cs@.subrange(from as int, to as int)),
{
    let mut v: u64 = 0;
    let mut i = from;
    while i < to
        invariant
            from <= i <= to <= cs@.len(),
            all_digits(cs@.subrange(from as int, to as int)),
            v == digits_value(cs@.subrange(from as int, i as int)),
            v <= max,
        decreases to - i,
    {
        let ghost pre = cs@.subrange(from as int, i as int);
        let ghost next = cs@.subrange(from as int, i + 1);
        assert(next.drop_last() == pre);
        assert(next.last() == cs@[i as int]);
        assert(is_ascii_digit(cs@.subrange(from as int, to as int)[i - from]));
        let d = (cs[i] as u32 - '0' as u32) as u64;
        if d > max || v > (max - d) / 10 {
            proof {
                lemma_digits_monotone(cs@.subrange(from as int, to as int), i - from + 1);
                assert(cs@.subrange(from as int, to as int).take(i - from + 1) == next);
                assert(digits_value(next) == v * 10 + d);
                if d <= max {
                    assert(v * 10 + d > max) by (nonlinear_arith)
                        requires
                            v > (max - d) / 10,
                            d <= max,
                    ;
                }
            }
            return None;
        }
        assert(v * 10 + d <= max) by (nonlinear_arith)
            requires
                v <= (max - d) / 10,
                d <= max,
        ;
        v = v * 10 + d;
        i = i + 1;
    }
    Some(v)
}

/// Reading more digits never gives a smaller value.
pub proof fn lemma_digits_monotone(s: Seq<char>, k: int)
    requires
        0 <= k <= s.len(),
    ensures
        digits_value(s.take(k)) <= digits_value(s),
    decreases s.len(),
{
    if k < s.len() {
        lemma_digits_monotone(s.drop_last(), k);
        assert(s.drop_last().take(k) == s.take(k));
    } else {
        assert(s.take(k) == s);
    }
}

/// What `str::parse` accepts for an unsigned integer of at most `max`: an
/// optional `+`, then one or more ASCII digits, whose value is at most `max`.
pub open spec fn parse_unsigned_spec(s: Seq<char>, max: nat) -> Option<nat> {
    let d = if s.len() > 0 && s[0] == '+' {
        s.drop_first()
    } else {
        s
    };
    if d.len() > 0 && all_digits(d) && digits_value(d) <= max {
        Some(digits_value(d))
    } else {
        None
    }
}

/// Parses an unsigned integer of at most `max`, as `str::parse` does.
pub fn parse_unsigned(s: &str, max: u64) -> (res: Option<u64>)
    ensures
        res == (match parse_unsigned_spec(s@, max as nat) {
            Some(v) => Some(v as u64),
            None => None,
        }),
{
    let cs = chars_of(s);
    let n = cs.len();
    let from: usize = if n > 0 && cs[0] == '+' {
        1
    } else {
        0
    };
    assert(cs@.subrange(from as int, n as int) == (if s@.len() > 0 && s@[0] == '+' {
        s@.drop_first()
    } else {
        s@
    }));
    if from == n {
        assert(cs@.subrange(from as int, n as int).len() == 0);
        return None;
    }
    let mut i = from;
    while i < n
        invariant
            from <= i <= n,
            n == cs@.len(),
            cs@ == s@,
            cs@.subrange(from as int, n as int) == (if s@.len() > 0 && s@[0] == '+' {
                s@.drop_first()
            } else {
                s@
            }),
            forall|k: int| from <= k < i ==> is_ascii_digit(#[trigger] cs@[k]),
        decreases n - i,
    {
        if !('0' <= cs[i] && cs[i] <= '9') {
            assert(!is_ascii_digit(cs@.subrange(from as int, n as int)[i - from]));
            return None;
        }
        i = i + 1;
    }
    assert(all_digits(cs@.subrange(from as int, n as int)));
    parse_digits(&cs, from, n, max)
}

/// Whether `list` holds a string with the characters of `s`.
pub fn contains_string(list: &Vec<String>, s: &str) -> (b: bool)
    ensures
        b == views(list@).contains(s@),
{
    let mut i: usize = 0;
    while i < list.len()
        invariant
            i <= list@.len(),
            forall|k: int| 0 <= k < i ==> list@[k]@ != s@,
        decreases list@.len() - i,
    {
        if crate::clock::str_eq(list[i].as_str(), s) {
            assert(views(list@)[i as int] == s@);
            return true;
        }
        i = i + 1;
    }
    assert forall|k: int| 0 <= k < views(list@).len() implies views(list@)[k] != s@ by {
        assert(views(list@)[k] == list@[k]@);
    }
    false
}

/// `prefix` is a prefix of `s`.
pub open spec fn is_prefix(prefix: Seq<char>, s: Seq<char>) -> bool {
    prefix.len() <= s.len() && s.take(prefix.len() as int) == prefix
}

/// Whether `s` starts with `prefix`, as `str::starts_with` tells.
pub fn starts_with(s: &str, prefix: &str) -> (b: bool)
    ensures
        b == is_prefix(prefix@, s@),
{
    let cs = chars_of(s);
    let ps = chars_of(prefix);
    if ps.len() > cs.len() {
        return false;
    }
    let mut i: usize = 0;
    while i < ps.len()
        invariant
            cs@ == s@,
            ps@ == prefix@,
            ps@.len() <= cs@.len(),
            i <= ps@.len(),
            forall|k: int| 0 <= k < i ==> cs@[k] == ps@[k],
        decreases ps@.len() - i,
    {
        if cs[i] != ps[i] {
            assert(s@.take(prefix@.len() as int)[i as int] != prefix@[i as int]);
            return false;
        }
        i = i + 1;
    }
    assert(s@.take(prefix@.len() as int) =~= prefix@);
    true
}

/// A copy of a list of strings.
pub fn clone_strings(v: &Vec<String>) -> (r: Vec<String>)
    ensures
        views(r@) == views(v@),
        r@.len() == v@.len(),
{
    let mut r: Vec<String> = Vec::new();
    let mut i: usize = 0;
    while i < v.len()
        invariant
            i <= v@.len(),
            r@.len() == i,
            forall|k: int| 0 <= k < i ==> #[trigger] r@[k]@ == v@[k]@,
        decreases v@.len() - i,
    {
        r.push(v[i].clone());
        i = i + 1;
    }
    assert(views(r@) =~= views(v@));
    r
}

} // verus!
