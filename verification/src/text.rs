//! Text primitives over sequences of characters.
//!
//! Every function reads or builds text through its characters, and each has a
//! spec function that says what the result is. Splitting is defined one
//! character at a time, from the front of the text to its end.

use vstd::prelude::*;

verus! {

/// The characters with the Unicode property `White_Space`.
pub open spec fn is_space(c: char) -> bool {
    let n = c as u32;
    ||| 0x09 <= n <= 0x0d
    ||| n == 0x20
    ||| n == 0x85
    ||| n == 0xa0
    ||| n == 0x1680
    ||| 0x2000 <= n <= 0x200a
    ||| n == 0x2028
    ||| n == 0x2029
    ||| n == 0x202f
    ||| n == 0x205f
    ||| n == 0x3000
}

/// The characters of the Unicode category `Cc`.
pub open spec fn is_control(c: char) -> bool {
    let n = c as u32;
    n <= 0x1f || 0x7f <= n <= 0x9f
}

pub open spec fn is_digit(c: char) -> bool {
    '0' <= c <= '9'
}

pub open spec fn all_digits(s: Seq<char>) -> bool {
    forall|i: int| 0 <= i < s.len() ==> is_digit(#[trigger] s[i])
}

/// A text without the white space in front of it.
pub open spec fn trim_start(s: Seq<char>) -> Seq<char>
    decreases s.len(),
{
    if s.len() > 0 && is_space(s[0]) {
        trim_start(s.skip(1))
    } else {
        s
    }
}

/// A text without the white space behind it.
pub open spec fn trim_end(s: Seq<char>) -> Seq<char>
    decreases s.len(),
{
    if s.len() > 0 && is_space(s.last()) {
        trim_end(s.drop_last())
    } else {
        s
    }
}

/// A text without the white space on either side.
pub open spec fn trim_spec(s: Seq<char>) -> Seq<char> {
    trim_end(trim_start(s))
}

/// The parts of a text between the separators; a text without a separator is
/// one part.
pub open spec fn split_spec(s: Seq<char>, separator: char) -> Seq<Seq<char>>
    decreases s.len(),
{
    if s.len() == 0 {
        seq![Seq::<char>::empty()]
    } else {
        let parts = split_spec(s.drop_last(), separator);
        if s.last() == separator {
            parts.push(Seq::<char>::empty())
        } else {
            parts.drop_last().push(parts.last().push(s.last()))
        }
    }
}

/// The longest runs of characters that are not white space.
pub open spec fn words_spec(s: Seq<char>) -> Seq<Seq<char>>
    decreases s.len(),
{
    if s.len() == 0 {
        Seq::empty()
    } else {
        let before = s.drop_last();
        let found = words_spec(before);
        if is_space(s.last()) {
            found
        } else if before.len() > 0 && !is_space(before.last()) && found.len() > 0 {
            found.drop_last().push(found.last().push(s.last()))
        } else {
            found.push(seq![s.last()])
        }
    }
}

/// A line without the carriage return at its end.
pub open spec fn strip_return(s: Seq<char>) -> Seq<char> {
    if s.len() > 0 && s.last() == '\r' {
        s.drop_last()
    } else {
        s
    }
}

/// The lines of a text. A line ends at `\n` or `\r\n`; text behind the last
/// line ending is a line of its own, taken as it stands.
pub open spec fn lines_spec(s: Seq<char>) -> Seq<Seq<char>> {
    let parts = split_spec(s, '\n');
    let ended = parts.drop_last().map_values(|line: Seq<char>| strip_return(line));
    if parts.last().len() == 0 {
        ended
    } else {
        ended.push(parts.last())
    }
}

/// Where a character first stands in a text, or the text's length.
pub open spec fn find_spec(s: Seq<char>, c: char) -> int
    decreases s.len(),
{
    if s.len() == 0 {
        0
    } else {
        let before = find_spec(s.drop_last(), c);
        if before < s.len() - 1 {
            before
        } else if s.last() == c {
            s.len() - 1
        } else {
            s.len() as int
        }
    }
}

/// The number that decimal digits write.
pub open spec fn digits_value(s: Seq<char>) -> nat
    decreases s.len(),
{
    if s.len() == 0 {
        0
    } else {
        10 * digits_value(s.drop_last()) + (s.last() as u32 - '0' as u32) as nat
    }
}

/// The unsigned number that a text writes: an optional plus sign, then at least
/// one decimal digit and nothing else, with a value up to `max`.
pub open spec fn parse_spec(s: Seq<char>, max: nat) -> Option<nat> {
    let digits = if s.len() > 0 && s[0] == '+' {
        s.skip(1)
    } else {
        s
    };
    if digits.len() > 0 && all_digits(digits) && digits_value(digits) <= max {
        Some(digits_value(digits))
    } else {
        None
    }
}

pub open spec fn digit_char(n: nat) -> char {
    (('0' as u32) + n) as char
}

/// A number in decimal, without leading zeros.
pub open spec fn decimal_spec(n: nat) -> Seq<char>
    decreases n,
{
    if n < 10 {
        seq![digit_char(n)]
    } else {
        decimal_spec(n / 10).push(digit_char(n % 10))
    }
}

pub open spec fn hex_char(n: nat) -> char {
    if n < 10 {
        (('0' as u32) + n) as char
    } else {
        (('a' as u32) + n - 10) as char
    }
}

/// Bytes as lower-case hexadecimal digits, two for each.
pub open spec fn hex_spec(bytes: Seq<u8>) -> Seq<char> {
    Seq::new(
        2 * bytes.len(),
        |i: int|
            if i % 2 == 0 {
                hex_char(bytes[i / 2] as nat / 16)
            } else {
                hex_char(bytes[i / 2] as nat % 16)
            },
    )
}

/// The order of texts by their characters, which is also that of their UTF-8
/// bytes.
pub open spec fn less_spec(a: Seq<char>, b: Seq<char>) -> bool
    decreases a.len(),
{
    if b.len() == 0 {
        false
    } else if a.len() == 0 {
        true
    } else if a[0] != b[0] {
        a[0] < b[0]
    } else {
        less_spec(a.skip(1), b.skip(1))
    }
}

pub open spec fn starts_with_spec(s: Seq<char>, prefix: Seq<char>) -> bool {
    prefix.len() <= s.len() && s.take(prefix.len() as int) == prefix
}

pub open spec fn contains_spec(s: Seq<char>, part: Seq<char>) -> bool {
    exists|i: int|
        0 <= i <= s.len() - part.len() && #[trigger] s.subrange(i, i + part.len()) == part
}

/// The texts that a list of texts holds.
pub open spec fn deep(v: Seq<String>) -> Seq<Seq<char>> {
    v.map_values(|x: String| x@)
}

/// The texts that a list of character lists holds.
pub open spec fn deep_chars(v: Seq<Vec<char>>) -> Seq<Seq<char>> {
    v.map_values(|x: Vec<char>| x@)
}

/// The text that bytes encode in UTF-8.
pub open spec fn decode_spec(bytes: Seq<u8>) -> Option<Seq<char>> {
    if vstd::utf8::valid_utf8(bytes) {
        Some(vstd::utf8::decode_utf8(bytes))
    } else {
        None
    }
}

/// A sorted list of distinct texts with one more text in its place.
pub open spec fn insert_text(sorted: Seq<Seq<char>>, x: Seq<char>) -> Seq<Seq<char>>
    decreases sorted.len(),
{
    if sorted.len() == 0 {
        seq![x]
    } else if sorted.last() == x {
        sorted
    } else if less_spec(sorted.last(), x) {
        sorted.push(x)
    } else {
        insert_text(sorted.drop_last(), x).push(sorted.last())
    }
}

/// The distinct texts of a list in ascending order.
pub open spec fn text_set(s: Seq<Seq<char>>) -> Seq<Seq<char>>
    decreases s.len(),
{
    if s.len() == 0 {
        Seq::empty()
    } else {
        insert_text(text_set(s.drop_last()), s.last())
    }
}

pub open spec fn ascending(s: Seq<Seq<char>>) -> bool {
    forall|i: int, j: int| 0 <= i < j < s.len() ==> less_spec(#[trigger] s[i], #[trigger] s[j])
}

/// Appends one character, as `String::push` does: the text afterwards is the
/// text before with the character behind it.
pub assume_specification[ String::push ](s: &mut String, c: char)
    ensures
        final(s)@ == old(s)@.push(c),
;

/// The error of `std::str::from_utf8`.
#[verifier::external_type_specification]
#[verifier::external_body]
pub struct ExUtf8Error(std::str::Utf8Error);

/// Reads bytes as text, as `std::str::from_utf8` does: the text has exactly
/// these bytes where they are well-formed UTF-8, and it is an error where they
/// are not.
pub assume_specification[ std::str::from_utf8 ](v: &[u8]) -> (r: Result<
    &str,
    std::str::Utf8Error,
>)
    ensures
        r is Ok <==> vstd::utf8::valid_utf8(v@),
        r matches Ok(s) ==> vstd::utf8::encode_utf8(s@) == v@,
;

/// Whether a character is white space.
pub fn space(c: char) -> (r: bool)
    ensures
        r == is_space(c),
{
    let n: u32 = c as u32;
    (0x09 <= n && n <= 0x0d) || n == 0x20 || n == 0x85 || n == 0xa0 || n == 0x1680 || (0x2000 <= n
        && n <= 0x200a) || n == 0x2028 || n == 0x2029 || n == 0x202f || n == 0x205f || n == 0x3000
}

/// Whether a character is a control character.
pub fn control(c: char) -> (r: bool)
    ensures
        r == is_control(c),
{
    let n: u32 = c as u32;
    n <= 0x1f || (0x7f <= n && n <= 0x9f)
}

/// The characters of a text.
pub fn chars_of(s: &str) -> (r: Vec<char>)
    ensures
        r@ == s@,
{
    let mut out: Vec<char> = Vec::new();
    for c in it: s.chars()
        invariant
            out@ == s@.take(it.index()),
            it.seq() == s@,
    {
        out.push(c);
    }
    out
}

/// The text made of the given characters.
pub fn string_of(v: &[char]) -> (r: String)
    ensures
        r@ == v@,
{
    let mut out = String::new();
    for i in 0..v.len()
        invariant
            out@ == v@.take(i as int),
    {
        out.push(v[i]);
    }
    out
}

/// Two texts, one behind the other.
pub fn join(a: &str, b: &str) -> (r: String)
    ensures
        r@ == a@ + b@,
{
    let mut out = a.to_string();
    out.append(b);
    out
}

/// Three texts, one behind the other.
pub fn join3(a: &str, b: &str, c: &str) -> (r: String)
    ensures
        r@ == a@ + b@ + c@,
{
    let mut out = a.to_string();
    out.append(b);
    out.append(c);
    out
}

/// The text that bytes encode, where they are well-formed UTF-8.
pub fn decode(bytes: &[u8]) -> (r: Option<String>)
    ensures
        match r {
            Some(s) => decode_spec(bytes@) == Some(s@),
            None => decode_spec(bytes@) is None,
        },
{
    match std::str::from_utf8(bytes) {
        Ok(s) => {
            proof {
                vstd::utf8::encode_utf8_decode_utf8(s@);
            }
            Some(s.to_string())
        },
        Err(_) => None,
    }
}

/// The UTF-8 bytes of a text.
pub fn bytes_of(s: &str) -> (r: Vec<u8>)
    ensures
        r@ == vstd::utf8::encode_utf8(s@),
{
    let bytes = s.as_bytes();
    let mut out: Vec<u8> = Vec::new();
    for i in 0..bytes.len()
        invariant
            out@ == bytes@.take(i as int),
    {
        out.push(bytes[i]);
    }
    out
}

/// Whether two lists of characters are the same.
pub fn same_chars(a: &[char], b: &[char]) -> (r: bool)
    ensures
        r == (a@ == b@),
{
    if a.len() != b.len() {
        return false;
    }
    for i in 0..a.len()
        invariant
            a.len() == b.len(),
            forall|j: int| 0 <= j < i ==> a@[j] == b@[j],
    {
        if a[i] != b[i] {
            return false;
        }
    }
    assert(a@ =~= b@);
    true
}

/// Whether two texts are the same.
pub fn same(a: &str, b: &str) -> (r: bool)
    ensures
        r == (a@ == b@),
{
    let x = a.as_bytes();
    let y = b.as_bytes();
    proof {
        vstd::utf8::encode_utf8_decode_utf8(a@);
        vstd::utf8::encode_utf8_decode_utf8(b@);
    }
    if x.len() != y.len() {
        return false;
    }
    for i in 0..x.len()
        invariant
            x.len() == y.len(),
            x@ == vstd::utf8::encode_utf8(a@),
            y@ == vstd::utf8::encode_utf8(b@),
            forall|j: int| 0 <= j < i ==> x@[j] == y@[j],
    {
        if x[i] != y[i] {
            return false;
        }
    }
    assert(x@ =~= y@);
    true
}

/// The text without the white space on either side.
pub fn trim(s: &[char]) -> (r: &[char])
    ensures
        r@ == trim_spec(s@),
{
    let mut start: usize = 0;
    assert(s@.skip(0) =~= s@);
    while start < s.len() && space(s[start])
        invariant
            start <= s.len(),
            trim_start(s@) == trim_start(s@.skip(start as int)),
        ensures
            start <= s.len(),
            trim_start(s@) == s@.skip(start as int),
        decreases s.len() - start,
    {
        assert(s@.skip(start as int).skip(1) =~= s@.skip(start + 1));
        start = start + 1;
    }
    let mut end: usize = s.len();
    assert(s@.subrange(start as int, end as int) =~= s@.skip(start as int));
    while end > start && space(s[end - 1])
        invariant
            start <= end <= s.len(),
            trim_end(s@.skip(start as int)) == trim_end(s@.subrange(start as int, end as int)),
        ensures
            start <= end <= s.len(),
            trim_end(s@.skip(start as int)) == s@.subrange(start as int, end as int),
        decreases end,
    {
        assert(s@.subrange(start as int, end as int).drop_last() =~= s@.subrange(
            start as int,
            end - 1,
        ));
        end = end - 1;
    }
    vstd::slice::slice_subrange(s, start, end)
}

/// The parts of a text between the separators.
pub fn split(s: &[char], separator: char) -> (r: Vec<Vec<char>>)
    ensures
        deep_chars(r@) == split_spec(s@, separator),
        r@.len() >= 1,
{
    let mut done: Vec<Vec<char>> = Vec::new();
    let mut current: Vec<char> = Vec::new();
    assert(deep_chars(done@).push(current@) =~= split_spec(s@.take(0), separator));
    for i in 0..s.len()
        invariant
            deep_chars(done@).push(current@) == split_spec(s@.take(i as int), separator),
    {
        let c = s[i];
        let ghost before = deep_chars(done@).push(current@);
        assert(s@.take(i + 1).drop_last() =~= s@.take(i as int));
        assert(before.drop_last() =~= deep_chars(done@));
        if c == separator {
            done.push(current);
            current = Vec::new();
            assert(deep_chars(done@) =~= before);
        } else {
            current.push(c);
        }
    }
    assert(s@.take(s@.len() as int) =~= s@);
    let ghost before = deep_chars(done@).push(current@);
    done.push(current);
    assert(deep_chars(done@) =~= before);
    done
}

/// The words of a text.
pub fn words(s: &[char]) -> (r: Vec<Vec<char>>)
    ensures
        deep_chars(r@) == words_spec(s@),
{
    let mut done: Vec<Vec<char>> = Vec::new();
    let mut current: Vec<char> = Vec::new();
    assert(deep_chars(done@) =~= words_spec(s@.take(0)));
    for i in 0..s.len()
        invariant
            current@.len() == 0 <==> (i == 0 || is_space(s@[i - 1])),
            words_spec(s@.take(i as int)) == if current@.len() == 0 {
                deep_chars(done@)
            } else {
                deep_chars(done@).push(current@)
            },
    {
        let c = s[i];
        let ghost before = words_spec(s@.take(i as int));
        assert(s@.take(i + 1).drop_last() =~= s@.take(i as int));
        assert(deep_chars(done@).push(current@).drop_last() =~= deep_chars(done@));
        if space(c) {
            if current.len() > 0 {
                done.push(current);
                current = Vec::new();
                assert(deep_chars(done@) =~= before);
            }
        } else {
            let ghost old_current = current@;
            current.push(c);
            assert(old_current.len() == 0 ==> current@ =~= seq![c]);
        }
    }
    assert(s@.take(s@.len() as int) =~= s@);
    if current.len() > 0 {
        let ghost before = deep_chars(done@).push(current@);
        done.push(current);
        assert(deep_chars(done@) =~= before);
    }
    done
}

/// The lines of a text.
pub fn lines(s: &[char]) -> (r: Vec<Vec<char>>)
    ensures
        deep_chars(r@) == lines_spec(s@),
{
    let parts = split(s, '\n');
    let ghost all = deep_chars(parts@);
    let mut out: Vec<Vec<char>> = Vec::new();
    let n: usize = parts.len();
    for i in 0..n - 1
        invariant
            n == parts.len(),
            n >= 1,
            all == deep_chars(parts@),
            out@.len() == i,
            forall|j: int| 0 <= j < i ==> (#[trigger] out@[j])@ == strip_return(all[j]),
    {
        let mut line = parts[i].clone();
        assert(line@ =~= all[i as int]);
        if line.len() > 0 && line[line.len() - 1] == '\r' {
            line.pop();
        }
        out.push(line);
    }
    let rest = parts[n - 1].clone();
    assert(rest@ =~= all.last());
    let ghost ended = all.drop_last().map_values(|line: Seq<char>| strip_return(line));
    assert(deep_chars(out@) =~= ended);
    if rest.len() > 0 {
        out.push(rest);
        assert(deep_chars(out@) =~= ended.push(all.last()));
    }
    out
}

/// Where a character first stands, or the length.
pub fn find(s: &[char], c: char) -> (r: usize)
    ensures
        r == find_spec(s@, c),
        r <= s@.len(),
        r < s@.len() ==> s@[r as int] == c,
        forall|j: int| 0 <= j < r ==> s@[j] != c,
{
    let mut i: usize = 0;
    while i < s.len() && s[i] != c
        invariant
            i <= s.len(),
            forall|j: int| 0 <= j < i ==> s@[j] != c,
        decreases s.len() - i,
    {
        i = i + 1;
    }
    proof {
        lemma_find(s@, c, i as int);
    }
    i
}

/// The position that `find_spec` names is the first one.
pub proof fn lemma_find(s: Seq<char>, c: char, i: int)
    requires
        0 <= i <= s.len(),
        i < s.len() ==> s[i] == c,
        forall|j: int| 0 <= j < i ==> s[j] != c,
    ensures
        find_spec(s, c) == i,
    decreases s.len(),
{
    if s.len() > 0 {
        let before = s.drop_last();
        if i < s.len() {
            if i < before.len() {
                lemma_find(before, c, i);
            } else {
                lemma_find(before, c, before.len() as int);
            }
        } else {
            lemma_find(before, c, before.len() as int);
        }
    }
}

/// What `find_spec` names: the first place of the character, or the length.
pub proof fn lemma_find_first(s: Seq<char>, c: char)
    ensures
        0 <= find_spec(s, c) <= s.len(),
        find_spec(s, c) < s.len() ==> s[find_spec(s, c)] == c,
        forall|j: int| 0 <= j < find_spec(s, c) ==> s[j] != c,
    decreases s.len(),
{
    if s.len() > 0 {
        let before = s.drop_last();
        lemma_find_first(before, c);
        assert forall|j: int| 0 <= j < find_spec(s, c) implies s[j] != c by {
            if j < before.len() {
                assert(s[j] == before[j]);
            }
        }
    }
}

/// Whether a text begins with another.
pub fn starts_with(s: &[char], prefix: &[char]) -> (r: bool)
    ensures
        r == starts_with_spec(s@, prefix@),
{
    if prefix.len() > s.len() {
        return false;
    }
    same_chars(vstd::slice::slice_subrange(s, 0, prefix.len()), prefix)
}

/// Whether a text holds another.
pub fn contains(s: &[char], part: &[char]) -> (r: bool)
    ensures
        r == contains_spec(s@, part@),
{
    if part.len() > s.len() {
        return false;
    }
    if part.len() == 0 {
        assert(s@.subrange(0int, 0int + part@.len()) =~= part@);
        return true;
    }
    for i in 0..s.len() - part.len() + 1
        invariant
            0 < part.len() <= s.len(),
            forall|j: int|
                0 <= j < i ==> #[trigger] s@.subrange(j, j + part@.len()) != part@,
    {
        if same_chars(vstd::slice::slice_subrange(s, i, i + part.len()), part) {
            assert(s@.subrange(i as int, i + part@.len()) == part@);
            return true;
        }
    }
    false
}

proof fn lemma_digits_value_grows(s: Seq<char>, i: int)
    requires
        0 <= i <= s.len(),
        all_digits(s),
    ensures
        digits_value(s.take(i)) <= digits_value(s),
    decreases s.len() - i,
{
    if i < s.len() {
        lemma_digits_value_grows(s, i + 1);
        assert(s.take(i + 1).drop_last() =~= s.take(i));
    } else {
        assert(s.take(i) =~= s);
    }
}

/// The unsigned number up to `max` that a text writes.
pub fn parse_unsigned(s: &[char], max: u128) -> (r: Option<u128>)
    ensures
        match r {
            Some(n) => parse_spec(s@, max as nat) == Some(n as nat),
            None => parse_spec(s@, max as nat) is None,
        },
{
    let start: usize = if s.len() > 0 && s[0] == '+' {
        1
    } else {
        0
    };
    let digits = vstd::slice::slice_subrange(s, start, s.len());
    assert(digits@ =~= if start == 1 {
        s@.skip(1)
    } else {
        s@
    });
    if digits.len() == 0 {
        return None;
    }
    for i in 0..digits.len()
        invariant
            forall|j: int| 0 <= j < i ==> is_digit(#[trigger] digits@[j]),
            parse_spec(s@, max as nat) is Some ==> all_digits(digits@),
    {
        if digits[i] < '0' || digits[i] > '9' {
            return None;
        }
    }
    let mut value: u128 = 0;
    for i in 0..digits.len()
        invariant
            all_digits(digits@),
            digits.len() > 0,
            value <= max,
            value == digits_value(digits@.take(i as int)),
            parse_spec(s@, max as nat) == if digits_value(digits@) <= max {
                Some(digits_value(digits@))
            } else {
                None
            },
    {
        let d: u128 = (digits[i] as u32 - '0' as u32) as u128;
        assert(digits@.take(i + 1).drop_last() =~= digits@.take(i as int));
        proof {
            lemma_digits_value_grows(digits@, i + 1);
        }
        if value > max / 10 || d > max - 10 * value {
            return None;
        }
        value = 10 * value + d;
    }
    assert(digits@.take(digits@.len() as int) =~= digits@);
    Some(value)
}

fn decimal_chars(n: u128) -> (r: Vec<char>)
    ensures
        r@ == decimal_spec(n as nat),
    decreases n,
{
    let digit = digit_of((n % 10) as u8);
    if n < 10 {
        let mut out: Vec<char> = Vec::new();
        out.push(digit);
        assert(out@ =~= decimal_spec(n as nat));
        out
    } else {
        let mut out = decimal_chars(n / 10);
        out.push(digit);
        out
    }
}

fn digit_of(n: u8) -> (r: char)
    requires
        n < 10,
    ensures
        r == digit_char(n as nat),
{
    (48u8 + n) as char
}

fn hex_of(n: u8) -> (r: char)
    requires
        n < 16,
    ensures
        r == hex_char(n as nat),
{
    if n < 10 {
        (48u8 + n) as char
    } else {
        (97u8 + (n - 10)) as char
    }
}

/// A number in decimal.
pub fn decimal(n: u128) -> (r: String)
    ensures
        r@ == decimal_spec(n as nat),
{
    let chars = decimal_chars(n);
    string_of(chars.as_slice())
}

/// Bytes in lower-case hexadecimal.
pub fn hex(bytes: &[u8]) -> (r: String)
    ensures
        r@ == hex_spec(bytes@),
{
    let mut out = String::new();
    for i in 0..bytes.len()
        invariant
            out@ == hex_spec(bytes@.take(i as int)),
    {
        let b: u8 = bytes[i];
        let ghost before = out@;
        out.push(hex_of(b / 16));
        out.push(hex_of(b % 16));
        let ghost done = bytes@.take(i + 1);
        assert forall|j: int| 0 <= j < out@.len() implies out@[j] == hex_spec(done)[j] by {
            if j < before.len() {
                assert(j / 2 < i);
                assert(done[j / 2] == bytes@.take(i as int)[j / 2]);
            }
        }
        assert(out@ =~= hex_spec(done));
    }
    assert(bytes@.take(bytes@.len() as int) =~= bytes@);
    out
}

/// Whether one text stands before another.
pub fn less_chars(a: &[char], b: &[char]) -> (r: bool)
    ensures
        r == less_spec(a@, b@),
{
    let mut i: usize = 0;
    assert(a@.skip(0) =~= a@);
    assert(b@.skip(0) =~= b@);
    while i < a.len() && i < b.len() && a[i] == b[i]
        invariant
            i <= a.len(),
            i <= b.len(),
            less_spec(a@, b@) == less_spec(a@.skip(i as int), b@.skip(i as int)),
        decreases a.len() - i,
    {
        assert(a@.skip(i as int).skip(1) =~= a@.skip(i + 1));
        assert(b@.skip(i as int).skip(1) =~= b@.skip(i + 1));
        i = i + 1;
    }
    if i == b.len() {
        false
    } else if i == a.len() {
        true
    } else {
        a[i] < b[i]
    }
}

/// Whether one text stands before another.
pub fn less(a: &str, b: &str) -> (r: bool)
    ensures
        r == less_spec(a@, b@),
{
    let x = chars_of(a);
    let y = chars_of(b);
    less_chars(x.as_slice(), y.as_slice())
}

/// A text does not stand before itself.
pub proof fn less_irreflexive(a: Seq<char>)
    ensures
        !less_spec(a, a),
    decreases a.len(),
{
    if a.len() > 0 {
        less_irreflexive(a.skip(1));
    }
}

/// Of two different texts one stands before the other.
pub proof fn less_total(a: Seq<char>, b: Seq<char>)
    requires
        a != b,
    ensures
        less_spec(a, b) || less_spec(b, a),
    decreases a.len(),
{
    if a.len() > 0 && b.len() > 0 && a[0] == b[0] {
        if a.skip(1) == b.skip(1) {
            assert(a =~= seq![a[0]] + a.skip(1));
            assert(b =~= seq![b[0]] + b.skip(1));
        }
        less_total(a.skip(1), b.skip(1));
    } else if a.len() == 0 && b.len() == 0 {
        assert(a =~= b);
    }
}

/// The order of texts is transitive.
pub proof fn less_transitive(a: Seq<char>, b: Seq<char>, c: Seq<char>)
    requires
        less_spec(a, b),
        less_spec(b, c),
    ensures
        less_spec(a, c),
    decreases a.len(),
{
    if a.len() > 0 && b.len() > 0 && c.len() > 0 && a[0] == b[0] && b[0] == c[0] {
        less_transitive(a.skip(1), b.skip(1), c.skip(1));
    }
}

/// The texts of a list with a separator between each two.
pub open spec fn join_spec(parts: Seq<Seq<char>>, separator: char) -> Seq<char>
    decreases parts.len(),
{
    if parts.len() == 0 {
        Seq::empty()
    } else if parts.len() == 1 {
        parts[0]
    } else {
        join_spec(parts.drop_last(), separator).push(separator) + parts.last()
    }
}

/// Reading a decimal number gives back the number that was written.
pub proof fn decimal_round_trip(n: nat, max: nat)
    requires
        n <= max,
    ensures
        parse_spec(decimal_spec(n), max) == Some(n),
{
    lemma_decimal(n);
}

/// A decimal number is made of digits, at least one, and has the value it is
/// written from.
pub proof fn lemma_decimal(n: nat)
    ensures
        decimal_spec(n).len() > 0,
        all_digits(decimal_spec(n)),
        digits_value(decimal_spec(n)) == n,
    decreases n,
{
    let s = decimal_spec(n);
    if n < 10 {
        assert(s.drop_last() =~= Seq::empty());
        assert(digits_value(s.drop_last()) == 0);
        assert(s.last() as u32 - '0' as u32 == n);
    } else {
        lemma_decimal(n / 10);
        assert(s.drop_last() =~= decimal_spec(n / 10));
        assert(s.last() as u32 - '0' as u32 == n % 10);
    }
}

/// Splitting gives at least one part.
pub proof fn lemma_split_some(s: Seq<char>, separator: char)
    ensures
        split_spec(s, separator).len() > 0,
    decreases s.len(),
{
    if s.len() > 0 {
        lemma_split_some(s.drop_last(), separator);
    }
}

/// Splitting behind a separator adds a part.
pub proof fn lemma_split_push(a: Seq<char>, separator: char, b: Seq<char>)
    requires
        forall|i: int| 0 <= i < b.len() ==> b[i] != separator,
    ensures
        split_spec(a.push(separator) + b, separator) == split_spec(a, separator).push(b),
    decreases b.len(),
{
    let whole = a.push(separator) + b;
    if b.len() == 0 {
        assert(whole.drop_last() =~= a);
        assert(b =~= Seq::<char>::empty());
    } else {
        assert(whole.drop_last() =~= a.push(separator) + b.drop_last());
        lemma_split_push(a, separator, b.drop_last());
        let parts = split_spec(a, separator).push(b.drop_last());
        assert(parts.drop_last() =~= split_spec(a, separator));
        assert(b.drop_last().push(b.last()) =~= b);
    }
}

/// A text without the separator is one part.
pub proof fn lemma_split_one(b: Seq<char>, separator: char)
    requires
        forall|i: int| 0 <= i < b.len() ==> b[i] != separator,
    ensures
        split_spec(b, separator) == seq![b],
    decreases b.len(),
{
    if b.len() == 0 {
        assert(b =~= Seq::<char>::empty());
    } else {
        lemma_split_one(b.drop_last(), separator);
        assert(b.drop_last().push(b.last()) =~= b);
        assert(split_spec(b, separator) =~= seq![b]);
    }
}

/// Splitting gives back the parts that were joined.
pub proof fn split_join(parts: Seq<Seq<char>>, separator: char)
    requires
        parts.len() > 0,
        forall|k: int, i: int|
            0 <= k < parts.len() && 0 <= i < parts[k].len() ==> #[trigger] parts[k][i] != separator,
    ensures
        split_spec(join_spec(parts, separator), separator) == parts,
    decreases parts.len(),
{
    let last = parts.last();
    assert forall|i: int| 0 <= i < last.len() implies last[i] != separator by {
        assert(parts[parts.len() - 1][i] != separator);
    }
    if parts.len() == 1 {
        lemma_split_one(last, separator);
        assert(seq![last] =~= parts);
    } else {
        let before = parts.drop_last();
        assert forall|k: int, i: int| 0 <= k < before.len() && 0 <= i < before[k].len() implies
            #[trigger] before[k][i] != separator by {
            assert(parts[k][i] != separator);
        }
        split_join(before, separator);
        lemma_split_push(join_spec(before, separator), separator, last);
        assert(before.push(last) =~= parts);
    }
}

/// A text that neither begins nor ends with white space is its own trimmed
/// text.
pub proof fn lemma_trim_tight(s: Seq<char>)
    requires
        s.len() > 0,
        !is_space(s[0]),
        !is_space(s.last()),
    ensures
        trim_spec(s) == s,
{
}

/// A text stands before every longer text that begins with it.
pub proof fn prefix_is_less(a: Seq<char>, b: Seq<char>)
    requires
        a.len() < b.len(),
        b.take(a.len() as int) == a,
    ensures
        less_spec(a, b),
    decreases a.len(),
{
    if a.len() > 0 {
        assert(b.take(a.len() as int)[0] == b[0]);
        assert(b.skip(1).take(a.len() - 1) =~= b.take(a.len() as int).skip(1));
        prefix_is_less(a.skip(1), b.skip(1));
    }
}

/// Whether two lists of texts are the same but for white space around the texts.
pub open spec fn same_trimmed(a: Seq<Seq<char>>, b: Seq<Seq<char>>) -> bool {
    &&& a.len() == b.len()
    &&& forall|i: int| 0 <= i < a.len() ==> trim_spec(#[trigger] a[i]) == trim_spec(b[i])
}

proof fn lemma_trim_space_behind(s: Seq<char>, c: char)
    requires
        is_space(c),
    ensures
        trim_spec(s.push(c)) == trim_spec(s),
    decreases s.len(),
{
    let longer = s.push(c);
    if s.len() == 0 {
        assert(longer.skip(1) =~= s);
    } else if is_space(s[0]) {
        assert(longer.skip(1) =~= s.skip(1).push(c));
        assert(longer[0] == s[0]);
        lemma_trim_space_behind(s.skip(1), c);
    } else {
        assert(longer[0] == s[0]);
        assert(longer.drop_last() =~= s);
    }
}

proof fn lemma_trim_space_before(s: Seq<char>, c: char)
    requires
        is_space(c),
    ensures
        trim_spec(seq![c] + s) == trim_spec(s),
{
    assert((seq![c] + s).skip(1) =~= s);
}

proof fn lemma_split_before(s: Seq<char>, c: char, separator: char)
    requires
        c != separator,
    ensures
        split_spec(seq![c] + s, separator) == split_spec(s, separator).update(
            0,
            seq![c] + split_spec(s, separator)[0],
        ),
    decreases s.len(),
{
    let longer = seq![c] + s;
    let parts = split_spec(s, separator);
    lemma_split_some(s, separator);
    if s.len() == 0 {
        assert(longer.drop_last() =~= s);
        assert(longer.last() == c);
        assert(Seq::<char>::empty().push(c) =~= seq![c] + Seq::<char>::empty());
        assert(split_spec(longer, separator) =~= parts.update(0, seq![c] + parts[0]));
    } else {
        let shorter = s.drop_last();
        assert(longer.drop_last() =~= seq![c] + shorter);
        assert(longer.last() == s.last());
        lemma_split_before(shorter, c, separator);
        lemma_split_some(shorter, separator);
        let before = split_spec(shorter, separator);
        if s.last() != separator && before.len() == 1 {
            assert((seq![c] + before[0]).push(s.last()) =~= seq![c] + before[0].push(s.last()));
        }
        assert(split_spec(longer, separator) =~= parts.update(0, seq![c] + parts[0]));
    }
}

proof fn lemma_split_trim_start(s: Seq<char>, separator: char)
    requires
        !is_space(separator),
    ensures
        same_trimmed(split_spec(s, separator), split_spec(trim_start(s), separator)),
    decreases s.len(),
{
    if s.len() > 0 && is_space(s[0]) {
        let rest = s.skip(1);
        lemma_split_trim_start(rest, separator);
        lemma_split_before(rest, s[0], separator);
        lemma_split_some(rest, separator);
        assert(seq![s[0]] + rest =~= s);
        lemma_trim_space_before(split_spec(rest, separator)[0], s[0]);
        let parts = split_spec(s, separator);
        let others = split_spec(trim_start(s), separator);
        assert forall|i: int| 0 <= i < parts.len() implies trim_spec(#[trigger] parts[i])
            == trim_spec(others[i]) by {
            assert(trim_spec(split_spec(rest, separator)[i]) == trim_spec(others[i]));
        }
    }
}

proof fn lemma_split_trim_end(s: Seq<char>, separator: char)
    requires
        !is_space(separator),
    ensures
        same_trimmed(split_spec(s, separator), split_spec(trim_end(s), separator)),
    decreases s.len(),
{
    if s.len() > 0 && is_space(s.last()) {
        let rest = s.drop_last();
        lemma_split_trim_end(rest, separator);
        lemma_split_some(rest, separator);
        let before = split_spec(rest, separator);
        lemma_trim_space_behind(before.last(), s.last());
        let parts = split_spec(s, separator);
        let others = split_spec(trim_end(s), separator);
        assert forall|i: int| 0 <= i < parts.len() implies trim_spec(#[trigger] parts[i])
            == trim_spec(others[i]) by {
            assert(trim_spec(before[i]) == trim_spec(others[i]));
        }
    }
}

/// Trimming a text first changes nothing but the white space around its parts.
pub proof fn split_of_trimmed(s: Seq<char>, separator: char)
    requires
        !is_space(separator),
    ensures
        same_trimmed(split_spec(s, separator), split_spec(trim_spec(s), separator)),
{
    lemma_split_trim_start(s, separator);
    lemma_split_trim_end(trim_start(s), separator);
    let a = split_spec(s, separator);
    let b = split_spec(trim_start(s), separator);
    let c = split_spec(trim_spec(s), separator);
    assert forall|i: int| 0 <= i < a.len() implies trim_spec(#[trigger] a[i]) == trim_spec(
        c[i],
    ) by {
        assert(trim_spec(b[i]) == trim_spec(c[i]));
    }
}

/// A text without white space is one word.
pub proof fn lemma_word_one(b: Seq<char>)
    requires
        b.len() > 0,
        forall|i: int| 0 <= i < b.len() ==> !is_space(#[trigger] b[i]),
    ensures
        words_spec(b) == seq![b],
    decreases b.len(),
{
    let before = b.drop_last();
    if before.len() == 0 {
        assert(words_spec(before) =~= Seq::empty());
        assert(seq![b.last()] =~= b);
        assert(words_spec(b) =~= seq![b]);
    } else {
        assert forall|i: int| 0 <= i < before.len() implies !is_space(#[trigger] before[i]) by {
            assert(!is_space(b[i]));
        }
        lemma_word_one(before);
        assert(!is_space(before[before.len() - 1]));
        assert(!is_space(b[b.len() - 1]));
        assert(before.push(b.last()) =~= b);
        assert(words_spec(b) =~= seq![b]);
    }
}

/// A text without white space behind a space is one more word.
pub proof fn lemma_word_push(a: Seq<char>, b: Seq<char>)
    requires
        b.len() > 0,
        forall|i: int| 0 <= i < b.len() ==> !is_space(#[trigger] b[i]),
    ensures
        words_spec(a.push(' ') + b) == words_spec(a).push(b),
    decreases b.len(),
{
    let whole = a.push(' ') + b;
    let before = b.drop_last();
    assert(whole.drop_last() =~= a.push(' ') + before);
    assert(whole.last() == b[b.len() - 1]);
    if before.len() == 0 {
        assert(whole.drop_last() =~= a.push(' '));
        assert(a.push(' ').drop_last() =~= a);
        assert(is_space(' '));
        assert(words_spec(a.push(' ')) == words_spec(a));
        assert(seq![b.last()] =~= b);
    } else {
        assert forall|i: int| 0 <= i < before.len() implies !is_space(#[trigger] before[i]) by {
            assert(!is_space(b[i]));
        }
        lemma_word_push(a, before);
        let found = words_spec(a).push(before);
        assert(!is_space(before[before.len() - 1]));
        assert(whole.drop_last().last() == before[before.len() - 1]);
        assert(found.drop_last() =~= words_spec(a));
        assert(before.push(b.last()) =~= b);
    }
}

/// A number written in digits holds none of the marks that lists are made of.
pub proof fn lemma_number_plain(n: nat)
    ensures
        decimal_spec(n).len() > 0,
        forall|i: int|
            0 <= i < decimal_spec(n).len() ==> {
                let c = #[trigger] decimal_spec(n)[i];
                !is_space(c) && c != '-' && c != ',' && c != '\n' && c != '\r' && c != '\0'
            },
        trim_spec(decimal_spec(n)) == decimal_spec(n),
{
    let s = decimal_spec(n);
    lemma_decimal(n);
    assert forall|i: int| 0 <= i < s.len() implies {
        let c = #[trigger] s[i];
        !is_space(c) && c != '-' && c != ',' && c != '\n' && c != '\r' && c != '\0'
    } by {
        assert(is_digit(s[i]));
    }
    assert(!is_space(s[0]));
    assert(!is_space(s[s.len() - 1]));
    lemma_trim_tight(s);
}

/// Bytes that encode a text are read as that text.
pub proof fn lemma_decode_encoded(s: Seq<char>)
    ensures
        decode_spec(vstd::utf8::encode_utf8(s)) == Some(s),
{
    vstd::utf8::encode_utf8_decode_utf8(s);
    vstd::utf8::encode_utf8_valid_utf8(s);
}

/// Puts a text into a sorted list of distinct texts, unless it is there.
fn insert_sorted(sorted: &mut Vec<String>, x: String)
    ensures
        deep(final(sorted)@) == insert_text(deep(old(sorted)@), x@),
{
    let ghost all = deep(sorted@);
    let mut at: usize = sorted.len();
    proof {
        assert(all.take(all.len() as int) =~= all);
        assert(insert_text(all, x@) =~= insert_text(all.take(all.len() as int), x@) + all.skip(
            all.len() as int,
        ));
    }
    while at > 0
        invariant_except_break
            insert_text(all, x@) == insert_text(all.take(at as int), x@) + all.skip(at as int),
        invariant
            at <= sorted@.len(),
            all == deep(sorted@),
            all.len() == sorted@.len(),
            sorted@ == old(sorted)@,
        ensures
            insert_text(all, x@) == all.take(at as int).push(x@) + all.skip(at as int),
        decreases at,
    {
        let ghost head = all.take(at as int);
        assert(head.last() == all[at - 1]);
        assert(all[at - 1] == sorted@[at - 1]@);
        if same(sorted[at - 1].as_str(), x.as_str()) {
            proof {
                assert(head + all.skip(at as int) =~= all);
            }
            return ;
        }
        if less(sorted[at - 1].as_str(), x.as_str()) {
            break;
        }
        proof {
            assert(head.drop_last() =~= all.take(at - 1));
            assert(insert_text(all.take(at - 1), x@).push(all[at - 1]) + all.skip(at as int)
                =~= insert_text(all.take(at - 1), x@) + all.skip(at - 1));
            if at == 1 {
                assert(all.take(0) =~= Seq::empty());
                assert(insert_text(all.take(0), x@) =~= all.take(0).push(x@));
            }
        }
        at = at - 1;
    }
    proof {
        if all.len() == 0 {
            assert(insert_text(all, x@) =~= all.take(0).push(x@) + all.skip(0));
        }
    }
    sorted.insert(at, x);
    assert(deep(sorted@) =~= all.take(at as int).push(x@) + all.skip(at as int));
}

/// The distinct texts of a list in ascending order.
pub fn sorted_set(texts: Vec<String>) -> (r: Vec<String>)
    ensures
        deep(r@) == text_set(deep(texts@)),
{
    let ghost all = deep(texts@);
    let mut sorted: Vec<String> = Vec::new();
    let mut i: usize = 0;
    proof {
        assert(all.take(0) =~= Seq::empty());
        assert(deep(sorted@) =~= Seq::empty());
    }
    while i < texts.len()
        invariant
            i <= texts@.len(),
            all == deep(texts@),
            all.len() == texts@.len(),
            deep(sorted@) == text_set(all.take(i as int)),
        decreases texts@.len() - i,
    {
        let x = texts[i].clone();
        proof {
            assert(all[i as int] == x@);
            assert(all.take(i + 1).drop_last() =~= all.take(i as int));
            assert(all.take(i + 1).last() == x@);
        }
        insert_sorted(&mut sorted, x);
        i = i + 1;
    }
    assert(all.take(i as int) =~= all);
    sorted
}

proof fn lemma_insert_text(sorted: Seq<Seq<char>>, x: Seq<char>)
    requires
        ascending(sorted),
    ensures
        ascending(insert_text(sorted, x)),
        insert_text(sorted, x).len() > 0,
        insert_text(sorted, x).last() == x || (sorted.len() > 0 && insert_text(sorted, x).last()
            == sorted.last()),
        sorted.len() > 0 && insert_text(sorted, x).last() == x && x != sorted.last() ==> less_spec(
            sorted.last(),
            x,
        ),
        forall|y: Seq<char>| #[trigger]
            insert_text(sorted, x).contains(y) <==> sorted.contains(y) || y == x,
    decreases sorted.len(),
{
    let r = insert_text(sorted, x);
    if sorted.len() == 0 {
        assert(r.contains(x)) by {
            assert(r[0] == x);
        }
        assert forall|y: Seq<char>| #[trigger] r.contains(y) implies sorted.contains(y) || y == x by {
            let k = r.index_of(y);
            assert(r[k] == x);
        }
    } else if sorted.last() == x {
        assert(sorted[sorted.len() - 1] == x);
        assert(sorted.contains(x));
    } else if less_spec(sorted.last(), x) {
        assert forall|i: int, j: int| 0 <= i < j < r.len() implies less_spec(
            #[trigger] r[i],
            #[trigger] r[j],
        ) by {
            if j == sorted.len() && i < sorted.len() - 1 {
                assert(less_spec(sorted[i], sorted[sorted.len() - 1]));
                less_transitive(sorted[i], sorted.last(), x);
            }
        }
        assert forall|y: Seq<char>| #[trigger] r.contains(y) <==> sorted.contains(y) || y == x by {
            if sorted.contains(y) {
                let k = sorted.index_of(y);
                assert(r[k] == y);
            }
            if y == x {
                assert(r[sorted.len() as int] == y);
            }
            if r.contains(y) {
                let k = r.index_of(y);
                if k < sorted.len() {
                    assert(sorted[k] == y);
                }
            }
        }
    } else {
        less_total(sorted.last(), x);
        let rest = sorted.drop_last();
        let last = sorted.last();
        lemma_insert_text(rest, x);
        let placed = insert_text(rest, x);
        assert forall|i: int, j: int| 0 <= i < j < r.len() implies less_spec(
            #[trigger] r[i],
            #[trigger] r[j],
        ) by {
            if j == placed.len() {
                assert(less_spec(placed.last(), last)) by {
                    if placed.last() != x {
                        assert(rest.last() == sorted[sorted.len() - 2]);
                        assert(last == sorted[sorted.len() - 1]);
                    }
                }
                if i < placed.len() - 1 {
                    assert(less_spec(placed[i], placed[placed.len() - 1]));
                    less_transitive(placed[i], placed.last(), last);
                }
            }
        }
        assert forall|y: Seq<char>| #[trigger] r.contains(y) <==> sorted.contains(y) || y == x by {
            if sorted.contains(y) {
                let k = sorted.index_of(y);
                if k < rest.len() {
                    assert(rest[k] == y);
                    assert(rest.contains(y));
                    assert(placed.contains(y));
                    let m = placed.index_of(y);
                    assert(r[m] == y);
                } else {
                    assert(r[placed.len() as int] == y);
                }
            }
            if y == x {
                assert(placed.contains(y));
                let m = placed.index_of(y);
                assert(r[m] == y);
            }
            if r.contains(y) {
                let k = r.index_of(y);
                if k < placed.len() {
                    assert(placed[k] == y);
                    assert(placed.contains(y));
                    if rest.contains(y) {
                        let m = rest.index_of(y);
                        assert(sorted[m] == y);
                    }
                } else {
                    assert(sorted[sorted.len() - 1] == y);
                }
            }
        }
        if r.last() == x {
            assert(last == x);
        }
    }
}

/// A list of texts as a sorted list holds the same texts, each once and in
/// ascending order.
pub proof fn text_set_is_sorted_set(s: Seq<Seq<char>>)
    ensures
        ascending(text_set(s)),
        forall|y: Seq<char>| #[trigger] text_set(s).contains(y) <==> s.contains(y),
    decreases s.len(),
{
    if s.len() > 0 {
        let rest = s.drop_last();
        text_set_is_sorted_set(rest);
        lemma_insert_text(text_set(rest), s.last());
        assert forall|y: Seq<char>| #[trigger] text_set(s).contains(y) <==> s.contains(y) by {
            if s.contains(y) {
                let k = s.index_of(y);
                if k < rest.len() {
                    assert(rest[k] == y);
                    assert(rest.contains(y));
                    assert(text_set(rest).contains(y));
                } else {
                    assert(y == s.last());
                }
            }
            if text_set(s).contains(y) {
                if y == s.last() {
                    assert(s[s.len() - 1] == y);
                } else {
                    assert(text_set(rest).contains(y));
                    let k = rest.index_of(y);
                    assert(s[k] == y);
                }
            }
        }
    }
}

/// A line that a kernel ends with a newline is the text before it, where that text
/// has no white space around it.
pub proof fn lemma_trim_line(s: Seq<char>)
    requires
        s.len() > 0,
        !is_space(s[0]),
        !is_space(s.last()),
    ensures
        trim_spec(s.push('\n')) == s,
        decode_spec(vstd::utf8::encode_utf8(s.push('\n'))) == Some(s.push('\n')),
{
    let line = s.push('\n');
    assert(trim_start(line) == line);
    assert(line.drop_last() == s);
    assert(trim_end(s) == s);
    lemma_decode_encoded(line);
}

} // verus!
