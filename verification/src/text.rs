//! Small operations on text that the sheet readers share: case folding,
//! trimming, splitting a cell at its comma, and the order of identifiers.

use vstd::prelude::*;
use vstd::string::StringExecFns;

verus! {

/// The upper-case form of an ASCII lower-case letter; any other character
/// unchanged.
pub open spec fn upper_char(c: char) -> char {
    if 'a' <= c && c <= 'z' {
        ((c as u8) - 32) as u8 as char
    } else {
        c
    }
}

/// A text with each of its ASCII lower-case letters replaced by the
/// upper-case one.
pub open spec fn upper_of(s: Seq<char>) -> Seq<char> {
    Seq::new(s.len(), |i: int| upper_char(s[i]))
}

/// The characters that Unicode gives the property `White_Space`.
pub open spec fn is_white_space(c: char) -> bool {
    let n = c as u32;
    ||| 0x09 <= n <= 0x0d
    ||| n == 0x20
    ||| n == 0x85
    ||| n == 0xa0
    ||| n == 0x1680
    ||| 0x2000 <= n <= 0x200a
    ||| n == 0x2028
    ||| n == 0x2029
    ||| n == 0x202f
    ||| n == 0x205f
    ||| n == 0x3000
}

/// A text without its leading white space.
pub open spec fn trim_start_of(s: Seq<char>) -> Seq<char>
    decreases s.len(),
{
    if s.len() > 0 && is_white_space(s[0]) {
        trim_start_of(s.drop_first())
    } else {
        s
    }
}

/// A text without its trailing white space.
pub open spec fn trim_end_of(s: Seq<char>) -> Seq<char>
    decreases s.len(),
{
    if s.len() > 0 && is_white_space(s.last()) {
        trim_end_of(s.drop_last())
    } else {
        s
    }
}

/// A text without leading and trailing white space.
pub open spec fn trim_of(s: Seq<char>) -> Seq<char> {
    trim_end_of(trim_start_of(s))
}

/// The character for a decimal digit.
pub open spec fn digit_char(digit: int) -> char {
    (48 + digit) as u8 as char
}

/// A number written in decimal, without leading zeros.
pub open spec fn decimal_of(n: nat) -> Seq<char>
    decreases n,
{
    if n < 10 {
        seq![digit_char(n as int)]
    } else {
        decimal_of(n / 10).push(digit_char((n % 10) as int))
    }
}

/// Whether a character is a decimal digit.
pub open spec fn is_digit(c: char) -> bool {
    48 <= c as u32 <= 57
}

/// The number that a run of decimal digits writes.
pub open spec fn digits_value(s: Seq<char>) -> int
    decreases s.len(),
{
    if s.len() == 0 {
        0
    } else {
        digits_value(s.drop_last()) * 10 + (s.last() as u32 - 48)
    }
}

/// The number that a run of decimal digits writes, provided there is at
/// least one digit, nothing but digits, and the number is at most
/// `i32::MAX`.
pub open spec fn digits_count(s: Seq<char>) -> Option<int> {
    if s.len() > 0 && (forall|i: int| 0 <= i < s.len() ==> is_digit(s[i])) && digits_value(s)
        <= i32::MAX {
        Some(digits_value(s))
    } else {
        None
    }
}

/// The count that a text writes, read as a signed 32-bit number is
/// written: decimal digits, at least one, with a plus or a minus sign
/// before them or none. A number below zero is no count, so a minus sign
/// is taken before zero only.
pub open spec fn count_of(s: Seq<char>) -> Option<int> {
    if s.len() > 0 && s[0] == '+' {
        digits_count(s.drop_first())
    } else if s.len() > 0 && s[0] == '-' {
        match digits_count(s.drop_first()) {
            Some(value) => if value == 0 {
                Some(0)
            } else {
                None
            },
            None => None,
        }
    } else {
        digits_count(s)
    }
}

/// Whether `s` begins with `p`.
pub open spec fn starts_with(s: Seq<char>, p: Seq<char>) -> bool {
    p.len() <= s.len() && s.subrange(0, p.len() as int) == p
}

/// What is left of `s` once `p` is taken off its front as often as it
/// stands there.
pub open spec fn without_prefixes(s: Seq<char>, p: Seq<char>) -> Seq<char>
    decreases s.len(),
{
    if p.len() > 0 && starts_with(s, p) {
        without_prefixes(s.subrange(p.len() as int, s.len() as int), p)
    } else {
        s
    }
}

/// Position `i` holds a comma and no other position of `s` does.
pub open spec fn is_only_comma(s: Seq<char>, i: int) -> bool {
    &&& 0 <= i < s.len()
    &&& s[i] == ','
    &&& forall|j: int| 0 <= j < s.len() && j != i ==> s[j] != ','
}

/// The two parts of a text that holds exactly one comma: what stands before
/// it and what stands after it. `None` for any other text.
pub open spec fn comma_pair_of(s: Seq<char>) -> Option<(Seq<char>, Seq<char>)> {
    if exists|i: int| is_only_comma(s, i) {
        let i = choose|i: int| is_only_comma(s, i);
        Some((s.subrange(0, i), s.subrange(i + 1, s.len() as int)))
    } else {
        None
    }
}

/// Dictionary order by character code: `a` comes before `b`.
pub open spec fn text_lt(a: Seq<char>, b: Seq<char>) -> bool
    decreases a.len(),
{
    if b.len() == 0 {
        false
    } else if a.len() == 0 {
        true
    } else if a[0] != b[0] {
        (a[0] as u32) < (b[0] as u32)
    } else {
        text_lt(a.drop_first(), b.drop_first())
    }
}

/// Dictionary order by character code: `a` is `b` or comes before it.
pub open spec fn text_le(a: Seq<char>, b: Seq<char>) -> bool {
    a == b || text_lt(a, b)
}

/// The upper-case form of a text, as used for student identifiers.
pub fn to_upper(s: &str) -> (r: String)
    ensures
        r@ == upper_of(s@),
{
    std_to_ascii_uppercase(s)
}

/// Whether a character is white space.
pub fn is_space(c: char) -> (r: bool)
    ensures
        r == is_white_space(c),
{
    let n = c as u32;
    (0x09 <= n && n <= 0x0d) || n == 0x20 || n == 0x85 || n == 0xa0 || n == 0x1680 || (0x2000 <= n
        && n <= 0x200a) || n == 0x2028 || n == 0x2029 || n == 0x202f || n == 0x205f || n == 0x3000
}

/// A text without the white space around it.
pub fn trimmed(s: &str) -> (r: &str)
    ensures
        r@ == trim_of(s@),
{
    let n = s.unicode_len();
    let mut start: usize = 0;
    assert(s@.subrange(0, n as int) =~= s@);
    while start < n && is_space(s.get_char(start))
        invariant
            n == s@.len(),
            start <= n,
            trim_start_of(s@) == trim_start_of(s@.subrange(start as int, n as int)),
        decreases n - start,
    {
        assert(s@.subrange(start as int, n as int).drop_first() =~= s@.subrange(
            start + 1,
            n as int,
        ));
        start += 1;
    }
    assert(trim_start_of(s@) == s@.subrange(start as int, n as int));
    let mut end: usize = n;
    while end > start && is_space(s.get_char(end - 1))
        invariant
            n == s@.len(),
            start <= end <= n,
            trim_of(s@) == trim_end_of(s@.subrange(start as int, end as int)),
        decreases end - start,
    {
        assert(s@.subrange(start as int, end as int).drop_last() =~= s@.subrange(
            start as int,
            end - 1,
        ));
        end -= 1;
    }
    assert(trim_of(s@) == s@.subrange(start as int, end as int));
    s.substring_char(start, end)
}

/// The views of a run of texts, in order.
pub open spec fn text_views(texts: Seq<String>) -> Seq<Seq<char>> {
    Seq::new(texts.len(), |i: int| texts[i]@)
}

/// The view of a text that may be missing.
pub open spec fn optional_text(text: Option<String>) -> Option<Seq<char>> {
    match text {
        Some(text) => Some(text@),
        None => None,
    }
}

/// Notes after a change: as before when none are given, empty when what is
/// given is white space only, else what is given.
pub open spec fn amended_notes(current: Seq<char>, notes: Option<Seq<char>>) -> Seq<char> {
    match notes {
        None => current,
        Some(notes) => if trim_of(notes).len() == 0 {
            Seq::empty()
        } else {
            notes
        },
    }
}

/// Whether `texts` holds `text`.
pub fn holds_text(texts: &Vec<String>, text: &String) -> (r: bool)
    ensures
        r == text_views(texts@).contains(text@),
{
    let mut i: usize = 0;
    while i < texts.len()
        invariant
            i <= texts.len(),
            forall|j: int| 0 <= j < i ==> text_views(texts@)[j] != text@,
        decreases texts.len() - i,
    {
        if texts[i] == *text {
            assert(text_views(texts@)[i as int] == text@);
            return true;
        }
        i += 1;
    }
    false
}

/// The notes after a change.
pub fn amend_notes(current: &String, notes: &Option<String>) -> (r: String)
    ensures
        r@ == amended_notes(current@, optional_text(*notes)),
{
    match notes {
        None => current.clone(),
        Some(notes) => {
            if trimmed(notes.as_str()).unicode_len() == 0 {
                String::new()
            } else {
                notes.clone()
            }
        },
    }
}

/// Whether two texts are the same.
pub fn same_text(a: &str, b: &str) -> (r: bool)
    ensures
        r == (a@ == b@),
{
    a.to_owned() == b.to_owned()
}

fn digit_text(digit: u8) -> (r: &'static str)
    requires
        digit < 10,
    ensures
        r@ == seq![digit_char(digit as int)],
{
    proof {
        reveal_strlit("0");
        reveal_strlit("1");
        reveal_strlit("2");
        reveal_strlit("3");
        reveal_strlit("4");
        reveal_strlit("5");
        reveal_strlit("6");
        reveal_strlit("7");
        reveal_strlit("8");
        reveal_strlit("9");
    }
    let r = match digit {
        0 => "0",
        1 => "1",
        2 => "2",
        3 => "3",
        4 => "4",
        5 => "5",
        6 => "6",
        7 => "7",
        8 => "8",
        _ => "9",
    };
    assert(r@ =~= seq![digit_char(digit as int)]);
    r
}

/// Writes a number in decimal.
pub fn to_decimal(n: u128) -> (r: String)
    ensures
        r@ == decimal_of(n as nat),
    decreases n,
{
    if n < 10 {
        digit_text(n as u8).to_owned()
    } else {
        let mut text = to_decimal(n / 10);
        text.append(digit_text((n % 10) as u8));
        assert(text@ =~= decimal_of((n / 10) as nat).push(digit_char((n % 10) as int)));
        text
    }
}

/// A longer run of digits writes no smaller a number.
pub proof fn lemma_digits_grow(s: Seq<char>, k: int)
    requires
        0 <= k <= s.len(),
        forall|i: int| 0 <= i < s.len() ==> is_digit(s[i]),
    ensures
        0 <= digits_value(s.take(k)) <= digits_value(s),
    decreases s.len() - k,
{
    if k < s.len() {
        lemma_digits_grow(s, k + 1);
        assert(s.take(k + 1).drop_last() =~= s.take(k));
        lemma_digits_nonnegative(s.take(k));
    } else {
        assert(s.take(k) =~= s);
        lemma_digits_nonnegative(s);
    }
}

/// A run of digits writes no negative number.
pub proof fn lemma_digits_nonnegative(s: Seq<char>)
    requires
        forall|i: int| 0 <= i < s.len() ==> is_digit(s[i]),
    ensures
        0 <= digits_value(s),
    decreases s.len(),
{
    if s.len() > 0 {
        lemma_digits_nonnegative(s.drop_last());
    }
}

/// Reads a number written in decimal digits.
pub fn parse_digits(text: &str) -> (r: Option<u32>)
    ensures
        match r {
            Some(count) => digits_count(text@) == Some(count as int),
            None => digits_count(text@) is None,
        },
{
    let n = text.unicode_len();
    if n == 0 {
        return None;
    }
    let mut value: u64 = 0;
    let mut i: usize = 0;
    assert(text@.take(0) =~= Seq::<char>::empty());
    while i < n
        invariant
            i <= n,
            n == text@.len(),
            forall|j: int| 0 <= j < i ==> is_digit(text@[j]),
            value == digits_value(text@.take(i as int)),
            value <= i32::MAX,
        decreases n - i,
    {
        let c = text.get_char(i);
        let code = c as u32;
        if code < 48 || code > 57 {
            return None;
        }
        proof {
            assert(text@.take(i + 1).drop_last() =~= text@.take(i as int));
            assert(text@.take(i + 1).last() == c);
        }
        let next = value * 10 + (code - 48) as u64;
        if next > i32::MAX as u64 {
            proof {
                if forall|j: int| 0 <= j < text@.len() ==> is_digit(text@[j]) {
                    lemma_digits_grow(text@, i + 1);
                }
            }
            return None;
        }
        value = next;
        i += 1;
    }
    proof {
        assert(text@.take(n as int) =~= text@);
    }
    Some(value as u32)
}

/// Reads a count: digits with or without a sign before them.
pub fn parse_count(text: &str) -> (r: Option<u32>)
    ensures
        match r {
            Some(count) => count_of(text@) == Some(count as int),
            None => count_of(text@) is None,
        },
{
    let n = text.unicode_len();
    if n == 0 {
        return parse_digits(text);
    }
    let first = text.get_char(0);
    if first == '+' {
        let rest = text.substring_char(1, n);
        assert(rest@ =~= text@.drop_first());
        parse_digits(rest)
    } else if first == '-' {
        let rest = text.substring_char(1, n);
        assert(rest@ =~= text@.drop_first());
        match parse_digits(rest) {
            Some(0) => Some(0),
            _ => None,
        }
    } else {
        parse_digits(text)
    }
}

/// Whether `s` begins with `p`.
pub fn has_prefix(s: &str, p: &str) -> (r: bool)
    ensures
        r == starts_with(s@, p@),
{
    let n = p.unicode_len();
    if n > s.unicode_len() {
        return false;
    }
    same_text(s.substring_char(0, n), p)
}

/// Takes `p` off the front of `s` as often as it stands there.
pub fn strip_prefixes<'a>(s: &'a str, p: &str) -> (r: &'a str)
    ensures
        r@ == without_prefixes(s@, p@),
{
    let n = p.unicode_len();
    let mut rest = s;
    if n == 0 {
        return rest;
    }
    while has_prefix(rest, p)
        invariant
            n == p@.len(),
            n > 0,
            without_prefixes(s@, p@) == without_prefixes(rest@, p@),
        decreases rest@.len(),
    {
        let len = rest.unicode_len();
        rest = rest.substring_char(n, len);
    }
    rest
}

/// Splits a text at its comma, provided it holds exactly one.
pub fn split_comma_pair(s: &str) -> (r: Option<(&str, &str)>)
    ensures
        match r {
            Some((head, tail)) => comma_pair_of(s@) == Some((head@, tail@)),
            None => comma_pair_of(s@) is None,
        },
{
    let n = s.unicode_len();
    let mut i: usize = 0;
    while i < n && s.get_char(i) != ','
        invariant
            n == s@.len(),
            i <= n,
            forall|j: int| 0 <= j < i ==> s@[j] != ',',
        decreases n - i,
    {
        i += 1;
    }
    if i == n {
        return None;
    }
    let mut k: usize = i + 1;
    while k < n && s.get_char(k) != ','
        invariant
            n == s@.len(),
            i < k <= n,
            s@[i as int] == ',',
            forall|j: int| 0 <= j < k && j != i ==> s@[j] != ',',
        decreases n - k,
    {
        k += 1;
    }
    if k < n {
        assert forall|p: int| !is_only_comma(s@, p) by {
            if is_only_comma(s@, p) {
                assert(s@[i as int] == ',');
                assert(s@[k as int] == ',');
            }
        }
        return None;
    }
    assert(is_only_comma(s@, i as int));
    let head = s.substring_char(0, i);
    let tail = s.substring_char(i + 1, n);
    Some((head, tail))
}

/// Whether `a` comes strictly before `b` in dictionary order.
pub fn text_before(a: &str, b: &str) -> (r: bool)
    ensures
        r == text_lt(a@, b@),
{
    let na = a.unicode_len();
    let nb = b.unicode_len();
    let mut i: usize = 0;
    assert(a@.skip(0) =~= a@ && b@.skip(0) =~= b@);
    while i < na && i < nb
        invariant
            na == a@.len(),
            nb == b@.len(),
            i <= na,
            i <= nb,
            text_lt(a@, b@) == text_lt(a@.skip(i as int), b@.skip(i as int)),
        decreases na - i,
    {
        let ca = a.get_char(i);
        let cb = b.get_char(i);
        proof {
            let ra = a@.skip(i as int);
            let rb = b@.skip(i as int);
            assert(ra[0] == ca && rb[0] == cb);
            assert(ra.drop_first() =~= a@.skip(i + 1));
            assert(rb.drop_first() =~= b@.skip(i + 1));
        }
        if ca != cb {
            return (ca as u32) < (cb as u32);
        }
        i += 1;
    }
    i < nb
}

/// Dictionary order is a strict total order.
pub proof fn lemma_text_order(a: Seq<char>, b: Seq<char>)
    ensures
        !text_lt(a, a),
        text_lt(a, b) ==> !text_lt(b, a),
        a != b ==> text_lt(a, b) || text_lt(b, a),
    decreases a.len(),
{
    if a.len() > 0 {
        lemma_text_order(a.drop_first(), a.drop_first());
    }
    if a.len() > 0 && b.len() > 0 {
        lemma_text_order(a.drop_first(), b.drop_first());
        if a[0] == b[0] && a.drop_first() == b.drop_first() {
            assert(a =~= seq![a[0]] + a.drop_first());
            assert(b =~= seq![b[0]] + b.drop_first());
        }
        if a[0] != b[0] {
            vstd::utf8::char_u32_cast(a[0], a[0] as u32);
            vstd::utf8::char_u32_cast(b[0], b[0] as u32);
        }
    } else if a.len() == 0 && b.len() == 0 {
        assert(a =~= b);
    }
}

/// Dictionary order is transitive.
pub proof fn lemma_text_lt_transitive(a: Seq<char>, b: Seq<char>, c: Seq<char>)
    requires
        text_lt(a, b),
        text_lt(b, c),
    ensures
        text_lt(a, c),
    decreases a.len(),
{
    if a.len() > 0 && b.len() > 0 && c.len() > 0 {
        if a[0] == b[0] && b[0] == c[0] {
            lemma_text_lt_transitive(a.drop_first(), b.drop_first(), c.drop_first());
        }
    }
}

/// Folding a text to upper case a second time changes nothing.
pub proof fn lemma_upper_idempotent(s: Seq<char>)
    ensures
        upper_of(upper_of(s)) == upper_of(s),
{
    assert forall|i: int| 0 <= i < s.len() implies upper_char(upper_char(s[i])) == upper_char(
        s[i],
    ) by {
        let c = s[i];
        if 'a' <= c && c <= 'z' {
            let u = ((c as u8) - 32) as u8;
            assert(65 <= u <= 90);
            assert(u as char as u8 == u);
        }
    }
    assert(upper_of(upper_of(s)) =~= upper_of(s));
}

/// `str::to_ascii_uppercase`: a copy in which each ASCII letter `a` to `z`
/// is replaced by its upper-case form and nothing else changes.
#[verifier::external_body]
fn std_to_ascii_uppercase(s: &str) -> (r: String)
    ensures
        r@ == upper_of(s@),
{
    s.to_ascii_uppercase()
}

} // verus!
