//! Operations on text, all of them over the character sequence of a string.

use vstd::prelude::*;
use vstd::string::*;
use vstd::utf8::*;

verus! {

/// `String::push`: appends one character at the end.
pub assume_specification[ std::string::String::push ](s: &mut std::string::String, c: char)
    ensures
        final(s)@ == old(s)@.push(c),
;

/// Whether two strings hold the same characters.
pub fn same_text(a: &str, b: &str) -> (same: bool)
    ensures
        same == (a@ == b@),
{
    let x = a.as_bytes();
    let y = b.as_bytes();
    proof {
        encode_utf8_decode_utf8(a@);
        encode_utf8_decode_utf8(b@);
    }
    if x.len() != y.len() {
        return false;
    }
    let mut i: usize = 0;
    while i < x.len()
        invariant
            i <= x.len(),
            x@.len() == y@.len(),
            x@ == encode_utf8(a@),
            y@ == encode_utf8(b@),
            forall|k: int| 0 <= k < i ==> x@[k] == y@[k],
        decreases x.len() - i,
    {
        if x[i] != y[i] {
            return false;
        }
        i += 1;
    }
    assert(x@ =~= y@);
    true
}

/// The characters of a string.
pub fn to_chars(s: &str) -> (chars: Vec<char>)
    ensures
        chars@ == s@,
{
    let mut chars: Vec<char> = Vec::new();
    for c in it: s.chars()
        invariant
            chars@ == it.seq().take(it.index() as int),
            it.seq() == s@,
    {
        chars.push(c);
        assert(chars@ =~= it.seq().take(it.index() + 1));
    }
    assert(chars@ =~= s@);
    chars
}

/// The string made of `chars[from..to]`.
pub fn from_chars(chars: &Vec<char>, from: usize, to: usize) -> (s: String)
    requires
        from <= to <= chars@.len(),
    ensures
        s@ == chars@.subrange(from as int, to as int),
{
    let mut s = String::new();
    let mut i = from;
    while i < to
        invariant
            from <= i <= to <= chars@.len(),
            s@ == chars@.subrange(from as int, i as int),
        decreases to - i,
    {
        s.push(chars[i]);
        i += 1;
        assert(s@ =~= chars@.subrange(from as int, i as int));
    }
    s
}

/// The decimal digit `d`.
pub open spec fn digit_char(d: int) -> char {
    if d == 0 {
        '0'
    } else if d == 1 {
        '1'
    } else if d == 2 {
        '2'
    } else if d == 3 {
        '3'
    } else if d == 4 {
        '4'
    } else if d == 5 {
        '5'
    } else if d == 6 {
        '6'
    } else if d == 7 {
        '7'
    } else if d == 8 {
        '8'
    } else {
        '9'
    }
}

/// Whether `c` is a decimal digit.
pub open spec fn is_digit(c: char) -> bool {
    '0' <= c <= '9'
}

/// The number that a sequence of decimal digits writes.
pub open spec fn digits_value(s: Seq<char>) -> nat
    decreases s.len(),
{
    if s.len() == 0 {
        0
    } else {
        10 * digits_value(s.drop_last()) + (s.last() as int - '0' as int) as nat
    }
}

/// Whether `s` is a non-empty sequence of decimal digits.
pub open spec fn all_digits(s: Seq<char>) -> bool {
    s.len() > 0 && forall|i: int| 0 <= i < s.len() ==> is_digit(#[trigger] s[i])
}

/// The decimal text of `n`, without leading zeros.
pub open spec fn decimal(n: nat) -> Seq<char>
    decreases n,
{
    if n < 10 {
        seq![digit_char(n as int)]
    } else {
        decimal(n / 10).push(digit_char((n % 10) as int))
    }
}

/// The decimal text of a number reads back as that number.
pub proof fn lemma_decimal_value(n: nat)
    ensures
        all_digits(decimal(n)),
        digits_value(decimal(n)) == n,
    decreases n,
{
    reveal_with_fuel(digits_value, 2);
    if n < 10 {
        assert(decimal(n).drop_last() =~= Seq::<char>::empty());
    } else {
        lemma_decimal_value(n / 10);
        assert(decimal(n).drop_last() =~= decimal(n / 10));
    }
}

fn digit(d: u64) -> (c: char)
    requires
        d < 10,
    ensures
        c == digit_char(d as int),
{
    if d == 0 {
        '0'
    } else if d == 1 {
        '1'
    } else if d == 2 {
        '2'
    } else if d == 3 {
        '3'
    } else if d == 4 {
        '4'
    } else if d == 5 {
        '5'
    } else if d == 6 {
        '6'
    } else if d == 7 {
        '7'
    } else if d == 8 {
        '8'
    } else {
        '9'
    }
}

/// The decimal text of `n`.
pub fn decimal_text(n: u64) -> (s: String)
    ensures
        s@ == decimal(n as nat),
    decreases n,
{
    let mut s = if n < 10 {
        String::new()
    } else {
        decimal_text(n / 10)
    };
    s.push(digit(n % 10));
    assert(s@ =~= decimal(n as nat));
    s
}

proof fn lemma_digits_value_grows(s: Seq<char>, i: int)
    requires
        0 <= i <= s.len(),
        forall|k: int| 0 <= k < s.len() ==> is_digit(#[trigger] s[k]),
    ensures
        digits_value(s.take(i)) <= digits_value(s),
    decreases s.len() - i,
{
    if i < s.len() {
        lemma_digits_value_grows(s, i + 1);
        assert(s.take(i + 1).drop_last() =~= s.take(i));
    } else {
        assert(s.take(i) =~= s);
    }
}

/// Reads `chars[from..]` as a decimal number that fits `u64`.
pub fn parse_digits(chars: &Vec<char>, from: usize) -> (n: Option<u64>)
    requires
        from <= chars@.len(),
    ensures
        match n {
            Some(v) => all_digits(chars@.skip(from as int)) && digits_value(
                chars@.skip(from as int),
            ) == v,
            None => !(all_digits(chars@.skip(from as int)) && digits_value(
                chars@.skip(from as int),
            ) <= u64::MAX),
        },
{
    let ghost s = chars@.skip(from as int);
    if from == chars.len() {
        return None;
    }
    let mut value: u64 = 0;
    let mut i: usize = from;
    while i < chars.len()
        invariant
            from <= i <= chars@.len(),
            s == chars@.skip(from as int),
            value == digits_value(s.take(i - from)),
            forall|k: int| 0 <= k < i - from ==> is_digit(#[trigger] s[k]),
        decreases chars@.len() - i,
    {
        let c = chars[i];
        assert(c == s[i - from]);
        if c < '0' || c > '9' {
            assert(!is_digit(s[i - from]));
            return None;
        }
        let d: u64 = (c as u32 - '0' as u32) as u64;
        assert(s.take(i - from + 1).drop_last() =~= s.take(i - from));
        assert(digits_value(s.take(i - from + 1)) == 10 * value + d);
        if value > (u64::MAX - d) / 10 {
            proof {
                if all_digits(s) {
                    lemma_digits_value_grows(s, i - from + 1);
                }
            }
            return None;
        }
        value = 10 * value + d;
        i += 1;
    }
    assert(s.take(i - from) =~= s);
    Some(value)
}

/// Whether `c` has the Unicode property `White_Space`.
pub open spec fn is_space(c: char) -> bool {
    let u = c as u32;
    ||| 0x9 <= u <= 0xd
    ||| u == 0x20
    ||| u == 0x85
    ||| u == 0xa0
    ||| u == 0x1680
    ||| 0x2000 <= u <= 0x200a
    ||| u == 0x2028
    ||| u == 0x2029
    ||| u == 0x202f
    ||| u == 0x205f
    ||| u == 0x3000
}

/// `s` without the white space at its start.
pub open spec fn trimmed_start(s: Seq<char>) -> Seq<char>
    decreases s.len(),
{
    if s.len() > 0 && is_space(s[0]) {
        trimmed_start(s.skip(1))
    } else {
        s
    }
}

/// `s` without the white space at its end.
pub open spec fn trimmed_end(s: Seq<char>) -> Seq<char>
    decreases s.len(),
{
    if s.len() > 0 && is_space(s.last()) {
        trimmed_end(s.drop_last())
    } else {
        s
    }
}

/// `s` without the white space around it.
pub open spec fn trimmed(s: Seq<char>) -> Seq<char> {
    trimmed_end(trimmed_start(s))
}

/// `s` without the characters `c` at its end.
pub open spec fn without_trailing(s: Seq<char>, c: char) -> Seq<char>
    decreases s.len(),
{
    if s.len() > 0 && s.last() == c {
        without_trailing(s.drop_last(), c)
    } else {
        s
    }
}

/// Whether `s` begins with `prefix`.
pub open spec fn has_prefix(s: Seq<char>, prefix: Seq<char>) -> bool {
    s.len() >= prefix.len() && s.take(prefix.len() as int) == prefix
}

/// Whether `s` ends with `suffix`.
pub open spec fn has_suffix(s: Seq<char>, suffix: Seq<char>) -> bool {
    s.len() >= suffix.len() && s.skip(s.len() - suffix.len()) == suffix
}

/// Whether `part` stands in `s` at `at`.
pub open spec fn occurs_at(s: Seq<char>, part: Seq<char>, at: int) -> bool {
    0 <= at && at + part.len() <= s.len() && s.subrange(at, at + part.len()) == part
}

/// Whether `part` occurs in `s`.
pub open spec fn has_part(s: Seq<char>, part: Seq<char>) -> bool {
    exists|at: int| #[trigger] occurs_at(s, part, at)
}

/// The parts one after the other, with `sep` between two of them.
pub open spec fn joined(parts: Seq<Seq<char>>, sep: Seq<char>) -> Seq<char>
    decreases parts.len(),
{
    if parts.len() == 0 {
        Seq::empty()
    } else if parts.len() == 1 {
        parts[0]
    } else {
        joined(parts.drop_last(), sep) + sep + parts.last()
    }
}

/// The character sequences of a sequence of strings.
pub open spec fn texts(items: Seq<String>) -> Seq<Seq<char>> {
    Seq::new(items.len(), |i: int| items[i]@)
}

pub fn is_whitespace(c: char) -> (b: bool)
    ensures
        b == is_space(c),
{
    let u = c as u32;
    (0x9 <= u && u <= 0xd) || u == 0x20 || u == 0x85 || u == 0xa0 || u == 0x1680 || (0x2000 <= u
        && u <= 0x200a) || u == 0x2028 || u == 0x2029 || u == 0x202f || u == 0x205f || u == 0x3000
}

/// `s` without the white space at its start.
pub fn trim_start(s: &str) -> (t: String)
    ensures
        t@ == trimmed_start(s@),
{
    let chars = to_chars(s);
    let mut i: usize = 0;
    assert(chars@.skip(0) =~= chars@);
    while i < chars.len() && is_whitespace(chars[i])
        invariant
            i <= chars@.len(),
            trimmed_start(chars@.skip(i as int)) == trimmed_start(chars@),
        decreases chars@.len() - i,
    {
        assert(chars@.skip(i as int).skip(1) =~= chars@.skip(i + 1));
        i += 1;
    }
    assert(chars@.subrange(i as int, chars@.len() as int) =~= chars@.skip(i as int));
    from_chars(&chars, i, chars.len())
}

/// `s` without the white space around it.
pub fn trim(s: &str) -> (t: String)
    ensures
        t@ == trimmed(s@),
{
    let t = trim_start(s);
    let chars = to_chars(t.as_str());
    let mut n: usize = chars.len();
    assert(chars@.take(n as int) =~= chars@);
    while n > 0 && is_whitespace(chars[n - 1])
        invariant
            n <= chars@.len(),
            trimmed_end(chars@.take(n as int)) == trimmed_end(chars@),
        decreases n,
    {
        assert(chars@.take(n as int).drop_last() =~= chars@.take(n - 1));
        n -= 1;
    }
    assert(chars@.subrange(0, n as int) =~= chars@.take(n as int));
    from_chars(&chars, 0, n)
}

/// Whether `s` is empty but for white space.
pub fn is_blank(s: &str) -> (b: bool)
    ensures
        b == (trimmed(s@).len() == 0),
{
    let t = trim(s);
    t.as_str().is_empty()
}

/// `s` without the characters `c` at its end.
pub fn trim_end_matches(s: &str, c: char) -> (t: String)
    ensures
        t@ == without_trailing(s@, c),
{
    let chars = to_chars(s);
    let mut n: usize = chars.len();
    assert(chars@.take(n as int) =~= chars@);
    while n > 0 && chars[n - 1] == c
        invariant
            n <= chars@.len(),
            without_trailing(chars@.take(n as int), c) == without_trailing(chars@, c),
        decreases n,
    {
        assert(chars@.take(n as int).drop_last() =~= chars@.take(n - 1));
        n -= 1;
    }
    assert(chars@.subrange(0, n as int) =~= chars@.take(n as int));
    from_chars(&chars, 0, n)
}

/// Whether `part` stands in `s` at `at`.
fn stands_at(s: &Vec<char>, part: &Vec<char>, at: usize) -> (b: bool)
    requires
        at <= s@.len(),
    ensures
        b == occurs_at(s@, part@, at as int),
{
    if part.len() > s.len() - at {
        return false;
    }
    let mut k: usize = 0;
    while k < part.len()
        invariant
            k <= part@.len(),
            at + part@.len() <= s.len(),
            forall|j: int| 0 <= j < k ==> s@[at + j] == part@[j],
        decreases part@.len() - k,
    {
        if s[at + k] != part[k] {
            assert(s@.subrange(at as int, at + part@.len())[k as int] != part@[k as int]);
            return false;
        }
        k += 1;
    }
    assert(s@.subrange(at as int, at + part@.len()) =~= part@);
    true
}

/// Where `part` stands in `s` for the first time at or after `from`.
pub fn find_from(s: &Vec<char>, part: &Vec<char>, from: usize) -> (at: Option<usize>)
    requires
        from <= s@.len(),
    ensures
        match at {
            Some(i) => from <= i && occurs_at(s@, part@, i as int) && forall|j: int|
                from <= j < i ==> !#[trigger] occurs_at(s@, part@, j),
            None => forall|j: int| from <= j ==> !#[trigger] occurs_at(s@, part@, j),
        },
{
    let mut i: usize = from;
    loop
        invariant
            from <= i <= s@.len(),
            forall|j: int| from <= j < i ==> !#[trigger] occurs_at(s@, part@, j),
        decreases s@.len() - i,
    {
        if stands_at(s, part, i) {
            return Some(i);
        }
        if i == s.len() {
            return None;
        }
        i += 1;
    }
}

/// Whether `part` occurs in `s`.
pub fn contains(s: &str, part: &str) -> (b: bool)
    ensures
        b == has_part(s@, part@),
{
    let chars = to_chars(s);
    let wanted = to_chars(part);
    match find_from(&chars, &wanted, 0) {
        Some(i) => true,
        None => false,
    }
}

/// Whether `s` begins with `prefix`.
pub fn starts_with(s: &str, prefix: &str) -> (b: bool)
    ensures
        b == has_prefix(s@, prefix@),
{
    let chars = to_chars(s);
    let wanted = to_chars(prefix);
    if wanted.len() <= chars.len() {
        assert(chars@.subrange(0, wanted@.len() as int) =~= chars@.take(wanted@.len() as int));
    }
    stands_at(&chars, &wanted, 0)
}

/// Whether `s` ends with `suffix`.
pub fn ends_with(s: &str, suffix: &str) -> (b: bool)
    ensures
        b == has_suffix(s@, suffix@),
{
    let chars = to_chars(s);
    let wanted = to_chars(suffix);
    if wanted.len() > chars.len() {
        return false;
    }
    let at: usize = chars.len() - wanted.len();
    assert(chars@.subrange(at as int, at + wanted@.len()) =~= chars@.skip(at as int));
    stands_at(&chars, &wanted, at)
}

/// What follows `prefix` in `s`, where `s` begins with it.
pub fn strip_prefix(s: &str, prefix: &str) -> (rest: Option<String>)
    ensures
        rest is Some == has_prefix(s@, prefix@),
        rest is Some ==> rest->0@ == s@.skip(prefix@.len() as int),
{
    if starts_with(s, prefix) {
        let chars = to_chars(s);
        let wanted = to_chars(prefix);
        assert(chars@.subrange(wanted@.len() as int, chars@.len() as int) =~= chars@.skip(
            wanted@.len() as int,
        ));
        Some(from_chars(&chars, wanted.len(), chars.len()))
    } else {
        None
    }
}

/// Two texts one after the other.
pub fn concat(a: &str, b: &str) -> (s: String)
    ensures
        s@ == a@ + b@,
{
    let mut s = a.to_owned();
    s.append(b);
    s
}

/// Three texts one after the other.
pub fn concat3(a: &str, b: &str, c: &str) -> (s: String)
    ensures
        s@ == a@ + b@ + c@,
{
    let mut s = concat(a, b);
    s.append(c);
    s
}

/// The parts one after the other, with `sep` between two of them.
pub fn join(parts: &Vec<String>, sep: &str) -> (s: String)
    ensures
        s@ == joined(texts(parts@), sep@),
{
    let mut s = String::new();
    let mut i: usize = 0;
    assert(texts(parts@).take(0) =~= Seq::empty());
    while i < parts.len()
        invariant
            i <= parts@.len(),
            s@ == joined(texts(parts@).take(i as int), sep@),
        decreases parts@.len() - i,
    {
        let ghost now = texts(parts@).take(i + 1);
        assert(now.drop_last() =~= texts(parts@).take(i as int));
        if i > 0 {
            s.append(sep);
        }
        s.append(parts[i].as_str());
        if i == 0 {
            assert(s@ =~= now[0]);
        }
        i += 1;
    }
    assert(texts(parts@).take(i as int) =~= texts(parts@));
    s
}

/// An ASCII letter in lower case.
pub open spec fn ascii_lower(c: char) -> char {
    if 'A' <= c <= 'Z' {
        ((c as u32) + 32) as char
    } else {
        c
    }
}

/// A text with its ASCII letters in lower case.
pub open spec fn lower_name(s: Seq<char>) -> Seq<char> {
    Seq::new(s.len(), |i: int| ascii_lower(s[i]))
}

/// Whether a text is made of ASCII characters.
pub open spec fn is_ascii_text(s: Seq<char>) -> bool {
    forall|i: int| 0 <= i < s.len() ==> (#[trigger] s[i] as u32) < 128
}

/// What `str::to_lowercase` makes of a text.
pub uninterp spec fn lowercased(s: Seq<char>) -> Seq<char>;

/// `str::to_lowercase`: the lowercase equivalent of a text. In an ASCII text the letters
/// from A to Z change into those from a to z, and nothing else changes.
#[verifier::external_body]
pub(crate) fn to_lowercase(s: &str) -> (lower: String)
    ensures
        lower@ == lowercased(s@),
        is_ascii_text(s@) ==> lower@ == lower_name(s@),
{
    s.to_lowercase()
}

/// What `String::from_utf8_lossy` makes of bytes.
pub uninterp spec fn lossy_text(bytes: Seq<u8>) -> Seq<char>;

/// `String::from_utf8_lossy`: bytes as text, with a replacement character for what is
/// not UTF-8. Where all of the bytes are UTF-8, this is the text that they encode.
#[verifier::external_body]
pub(crate) fn from_utf8_lossy(bytes: &Vec<u8>) -> (s: String)
    ensures
        s@ == lossy_text(bytes@),
        valid_utf8(bytes@) ==> s@ == decode_utf8(bytes@),
{
    String::from_utf8_lossy(bytes).into_owned()
}

/// A text and what stands before and after it: the text occurs in the whole, and what
/// occurs in a text has something before and after it.
pub proof fn law_parts_have_surroundings(a: Seq<char>, part: Seq<char>, b: Seq<char>, s: Seq<char>)
    ensures
        has_part(a + part + b, part),
        has_part(s, part) ==> exists|x: Seq<char>, y: Seq<char>| s == #[trigger] (x + part + y),
{
    let whole = a + part + b;
    assert(whole.subrange(a.len() as int, (a.len() + part.len()) as int) =~= part);
    assert(occurs_at(whole, part, a.len() as int));
    if has_part(s, part) {
        let at = choose|at: int| #[trigger] occurs_at(s, part, at);
        let x = s.take(at);
        let y = s.skip(at + part.len());
        assert(s =~= x + part + y);
    }
}

proof fn lemma_part_of_part(s: Seq<char>, middle: Seq<char>, part: Seq<char>)
    requires
        has_part(s, middle),
        has_part(middle, part),
    ensures
        has_part(s, part),
{
    let i = choose|at: int| #[trigger] occurs_at(s, middle, at);
    let j = choose|at: int| #[trigger] occurs_at(middle, part, at);
    assert(s.subrange(i + j, i + j + part.len()) =~= part);
    assert(occurs_at(s, part, i + j));
}

/// Joining nothing gives nothing, joining one text gives that text, and joining two lists
/// gives the one and the other with the separator between them.
pub proof fn law_joining_puts_the_separator_between(
    a: Seq<Seq<char>>,
    b: Seq<Seq<char>>,
    t: Seq<char>,
    sep: Seq<char>,
)
    ensures
        joined(Seq::empty(), sep) == Seq::<char>::empty(),
        joined(seq![t], sep) == t,
        a.len() > 0 && b.len() > 0 ==> joined(a + b, sep) == joined(a, sep) + sep + joined(b, sep),
    decreases b.len(),
{
    if a.len() > 0 && b.len() > 0 {
        assert((a + b).drop_last() =~= a + b.drop_last());
        if b.len() == 1 {
            assert(a + b.drop_last() =~= a);
        } else {
            law_joining_puts_the_separator_between(a, b.drop_last(), t, sep);
            assert(joined(a, sep) + sep + joined(b.drop_last(), sep) + sep + b.last() =~= joined(
                a,
                sep,
            ) + sep + (joined(b.drop_last(), sep) + sep + b.last()));
        }
    }
}

/// Each of the texts that were joined occurs in what they were joined to.
pub proof fn law_joined_texts_are_found(parts: Seq<Seq<char>>, sep: Seq<char>, i: int)
    requires
        0 <= i < parts.len(),
    ensures
        has_part(joined(parts, sep), parts[i]),
    decreases parts.len(),
{
    let whole = joined(parts, sep);
    if parts.len() == 1 {
        assert(whole =~= Seq::empty() + parts[0] + Seq::empty());
        law_parts_have_surroundings(Seq::empty(), parts[0], Seq::empty(), whole);
    } else {
        let front = joined(parts.drop_last(), sep);
        if i == parts.len() - 1 {
            law_parts_have_surroundings(front + sep, parts[i], Seq::empty(), whole);
            assert(front + sep + parts[i] + Seq::empty() =~= whole);
        } else {
            law_joined_texts_are_found(parts.drop_last(), sep, i);
            law_parts_have_surroundings(Seq::empty(), front, sep + parts.last(), whole);
            assert(Seq::empty() + front + (sep + parts.last()) =~= whole);
            lemma_part_of_part(whole, front, parts[i]);
        }
    }
}

/// What occurs in one of the texts that were joined occurs in what they were joined to,
/// whatever stands before that.
pub proof fn law_told_texts_are_found(
    head: Seq<char>,
    parts: Seq<Seq<char>>,
    sep: Seq<char>,
    i: int,
    part: Seq<char>,
)
    requires
        0 <= i < parts.len(),
        has_part(parts[i], part),
    ensures
        has_part(head + joined(parts, sep), part),
{
    law_joined_texts_are_found(parts, sep, i);
    lemma_part_of_part(joined(parts, sep), parts[i], part);
    law_parts_have_surroundings(head, joined(parts, sep), Seq::empty(), Seq::empty());
    assert(head + joined(parts, sep) + Seq::empty() =~= head + joined(parts, sep));
    lemma_part_of_part(head + joined(parts, sep), joined(parts, sep), part);
}

/// A trimmed text is the text without the blanks at its ends, and without those alone.
pub proof fn law_trimming_takes_the_blanks_at_the_ends(s: Seq<char>) -> (place: (int, int))
    ensures
        0 <= place.0 <= place.1 <= s.len(),
        trimmed(s) == s.subrange(place.0, place.1),
        forall|k: int| 0 <= k < place.0 || place.1 <= k < s.len() ==> is_space(#[trigger] s[k]),
        trimmed(s).len() > 0 ==> !is_space(trimmed(s)[0]) && !is_space(trimmed(s).last()),
{
    let from = lemma_trimmed_start(s);
    let rest = trimmed_start(s);
    let to = lemma_trimmed_end(rest);
    assert(rest.take(to) =~= s.subrange(from, from + to));
    assert forall|k: int| 0 <= k < from || from + to <= k < s.len() implies is_space(
        #[trigger] s[k],
    ) by {
        if k >= from {
            assert(rest[k - from] == s[k]);
        }
    }
    (from, from + to)
}

proof fn lemma_trimmed_start(s: Seq<char>) -> (from: int)
    ensures
        0 <= from <= s.len(),
        trimmed_start(s) == s.skip(from),
        forall|k: int| 0 <= k < from ==> is_space(#[trigger] s[k]),
        from < s.len() ==> !is_space(s[from]),
    decreases s.len(),
{
    if s.len() > 0 && is_space(s[0]) {
        let n = lemma_trimmed_start(s.skip(1));
        assert(s.skip(1).skip(n) =~= s.skip(n + 1));
        assert forall|k: int| 0 <= k < n + 1 implies is_space(#[trigger] s[k]) by {
            if k > 0 {
                assert(s.skip(1)[k - 1] == s[k]);
            }
        }
        n + 1
    } else {
        assert(s.skip(0) =~= s);
        0
    }
}

proof fn lemma_trimmed_end(s: Seq<char>) -> (to: int)
    ensures
        0 <= to <= s.len(),
        trimmed_end(s) == s.take(to),
        forall|k: int| to <= k < s.len() ==> is_space(#[trigger] s[k]),
        to > 0 ==> !is_space(s[to - 1]),
    decreases s.len(),
{
    if s.len() > 0 && is_space(s.last()) {
        let n = lemma_trimmed_end(s.drop_last());
        assert(s.drop_last().take(n) =~= s.take(n));
        assert forall|k: int| n <= k < s.len() implies is_space(#[trigger] s[k]) by {
            if k < s.len() - 1 {
                assert(s.drop_last()[k] == s[k]);
            }
        }
        n
    } else {
        assert(s.take(s.len() as int) =~= s);
        s.len() as int
    }
}

/// A text loses the characters in question at its end, and those alone.
pub proof fn law_trailing_characters_are_lost(s: Seq<char>, c: char)
    ensures
        ({
            let t = without_trailing(s, c);
            &&& t.len() <= s.len()
            &&& t == s.take(t.len() as int)
            &&& forall|k: int| t.len() <= k < s.len() ==> #[trigger] s[k] == c
            &&& t.len() > 0 ==> t.last() != c
        }),
    decreases s.len(),
{
    if s.len() > 0 && s.last() == c {
        law_trailing_characters_are_lost(s.drop_last(), c);
        let t = without_trailing(s, c);
        assert(s.drop_last().take(t.len() as int) =~= s.take(t.len() as int));
        assert forall|k: int| t.len() <= k < s.len() implies #[trigger] s[k] == c by {
            if k < s.len() - 1 {
                assert(s.drop_last()[k] == s[k]);
            }
        }
    } else {
        assert(s.take(s.len() as int) =~= s);
    }
}

/// A letter of the Latin alphabet in lower case is that letter, and all else stays.
pub proof fn law_letters_are_put_in_lower_case(s: Seq<char>, i: int)
    requires
        0 <= i < s.len(),
    ensures
        lower_name(s).len() == s.len(),
        'A' <= s[i] <= 'Z' ==> lower_name(s)[i] as int - 'a' as int == s[i] as int - 'A' as int,
        !('A' <= s[i] <= 'Z') ==> lower_name(s)[i] == s[i],
{
}

/// The decimal text of a number has no zero in front.
pub proof fn law_decimals_have_no_leading_zero(n: nat)
    ensures
        n > 0 ==> decimal(n)[0] != '0',
        decimal(0) == seq!['0'],
    decreases n,
{
    if n >= 10 {
        law_decimals_have_no_leading_zero(n / 10);
        lemma_decimal_value(n / 10);
    }
}

} // verus!
