//! Text building blocks shared by the formats: decimal integers, JSON strings,
//! separated lists and buffers with a fixed prefix.

use vstd::prelude::*;
use vstd::string::*;

verus! {

// ---------------------------------------------------------------------------
// std and outside functions
// ---------------------------------------------------------------------------

/// `String::push` appends one character.
pub assume_specification[ std::string::String::push ](s: &mut std::string::String, c: char)
    ensures
        final(s)@ == old(s)@.push(c),
;

/// `itoa::Buffer::format` on a `u64` gives its decimal digits, without leading zeros.
#[verifier::external_body]
pub(crate) fn itoa_u64(value: u64) -> (res: String)
    ensures
        res@ == decimal(value as nat),
{
    itoa::Buffer::new().format(value).to_owned()
}

/// `itoa::Buffer::format` on a `u128` gives its decimal digits, without leading zeros.
#[verifier::external_body]
pub(crate) fn itoa_u128(value: u128) -> (res: String)
    ensures
        res@ == decimal(value as nat),
{
    itoa::Buffer::new().format(value).to_owned()
}

/// `serde_json::to_string` on a string gives the string in double quotes, with
/// quotes, backslashes and the characters below U+0020 escaped. Writing a string
/// into memory does not fail, so the error is not handed out.
#[verifier::external_body]
pub(crate) fn serde_json_str(value: &str) -> (res: String)
    ensures
        res@ == json_quoted(value@),
{
    serde_json::to_string(value).expect("a string is always representable")
}

/// `serde_json::to_string` on a slice of strings gives the quoted strings,
/// separated by commas, in square brackets. It does not fail either.
#[verifier::external_body]
pub(crate) fn serde_json_strs(value: &[String]) -> (res: String)
    ensures
        res@ == json_string_array(texts(value@)),
{
    serde_json::to_string(value).expect("strings are always representable")
}

// ---------------------------------------------------------------------------
// Decimal integers
// ---------------------------------------------------------------------------

/// The character of a digit below sixteen, in lower case.
pub open spec fn digit_char(d: int) -> char {
    if d == 0 {
        '0'
    } else if d == 1 {
        '1'
    } else if d == 2 {
        '2'
    } else if d == 3 {
        '3'
    } else if d == 4 {
        '4'
    } else if d == 5 {
        '5'
    } else if d == 6 {
        '6'
    } else if d == 7 {
        '7'
    } else if d == 8 {
        '8'
    } else if d == 9 {
        '9'
    } else if d == 10 {
        'a'
    } else if d == 11 {
        'b'
    } else if d == 12 {
        'c'
    } else if d == 13 {
        'd'
    } else if d == 14 {
        'e'
    } else {
        'f'
    }
}

/// The decimal digits of `n`, without leading zeros.
pub open spec fn decimal(n: nat) -> Seq<char>
    decreases n,
{
    if n < 10 {
        seq![digit_char(n as int)]
    } else {
        decimal(n / 10).push(digit_char((n % 10) as int))
    }
}

// ---------------------------------------------------------------------------
// JSON strings
// ---------------------------------------------------------------------------

/// The two-digit escape of a character below U+0020.
pub open spec fn unicode_escape(c: char) -> Seq<char> {
    seq!['\\', 'u', '0', '0', digit_char(c as int / 16), digit_char(c as int % 16)]
}

/// How one character stands inside a JSON string. `short` tells whether
/// backspace and form feed have their short escapes.
pub open spec fn json_escape(c: char, short: bool) -> Seq<char> {
    if c == '"' {
        seq!['\\', '"']
    } else if c == '\\' {
        seq!['\\', '\\']
    } else if c == '\n' {
        seq!['\\', 'n']
    } else if c == '\r' {
        seq!['\\', 'r']
    } else if c == '\t' {
        seq!['\\', 't']
    } else if short && c as int == 8 {
        seq!['\\', 'b']
    } else if short && c as int == 12 {
        seq!['\\', 'f']
    } else if (c as int) < 32 {
        unicode_escape(c)
    } else {
        seq![c]
    }
}

/// The characters of `s`, each escaped, one after the other.
pub open spec fn json_escaped(s: Seq<char>, short: bool) -> Seq<char>
    decreases s.len(),
{
    if s.len() == 0 {
        Seq::empty()
    } else {
        json_escaped(s.drop_last(), short) + json_escape(s.last(), short)
    }
}

/// The JSON string of `s`, with the short escapes for backspace and form feed.
pub open spec fn json_quoted(s: Seq<char>) -> Seq<char> {
    seq!['"'] + json_escaped(s, true) + seq!['"']
}

/// The JSON string of `s`, without the short escapes for backspace and form feed.
pub open spec fn json_quoted_plain(s: Seq<char>) -> Seq<char> {
    seq!['"'] + json_escaped(s, false) + seq!['"']
}

/// The texts that a list of strings holds.
pub open spec fn texts(list: Seq<String>) -> Seq<Seq<char>> {
    list.map_values(|s: String| s@)
}

/// The parts, one after the other, with `separator` between each two.
pub open spec fn joined(parts: Seq<Seq<char>>, separator: Seq<char>) -> Seq<char>
    decreases parts.len(),
{
    if parts.len() == 0 {
        Seq::empty()
    } else if parts.len() == 1 {
        parts[0]
    } else {
        joined(parts.drop_last(), separator) + separator + parts.last()
    }
}

/// The parts, one after the other.
pub open spec fn concat(parts: Seq<Seq<char>>) -> Seq<char>
    decreases parts.len(),
{
    if parts.len() == 0 {
        Seq::empty()
    } else {
        concat(parts.drop_last()) + parts.last()
    }
}

/// The JSON array of the given strings.
pub open spec fn json_string_array(list: Seq<Seq<char>>) -> Seq<char> {
    seq!['['] + joined(list.map_values(|s: Seq<char>| json_quoted(s)), seq![',']) + seq![']']
}

/// Joining one more part puts a separator before it, unless it is the first.
pub proof fn joined_push(parts: Seq<Seq<char>>, part: Seq<char>, separator: Seq<char>)
    ensures
        joined(parts.push(part), separator) == if parts.len() == 0 {
            part
        } else {
            joined(parts, separator) + separator + part
        },
{
    assert(parts.push(part).drop_last() =~= parts);
}

/// The parts, each after a comma.
pub open spec fn after_commas(parts: Seq<Seq<char>>) -> Seq<char> {
    concat(parts.map_values(|m: Seq<char>| seq![','] + m))
}

/// One more part comes after one more comma.
pub proof fn after_commas_push(parts: Seq<Seq<char>>, m: Seq<char>)
    ensures
        after_commas(parts.push(m)) == after_commas(parts) + seq![','] + m,
{
    let f = |m: Seq<char>| seq![','] + m;
    assert(parts.push(m).map_values(f) =~= parts.map_values(f).push(seq![','] + m));
    assert(parts.map_values(f).push(seq![','] + m).drop_last() =~= parts.map_values(f));
    assert(after_commas(parts.push(m)) =~= after_commas(parts) + seq![','] + m);
}

/// Without its first comma, the text is the parts with commas between them.
pub proof fn after_commas_is_joined(parts: Seq<Seq<char>>)
    ensures
        after_commas(parts).len() == 0 <==> parts.len() == 0,
        parts.len() > 0 ==> after_commas(parts) == seq![','] + joined(parts, seq![',']),
    decreases parts.len(),
{
    if parts.len() > 0 {
        let init = parts.drop_last();
        after_commas_is_joined(init);
        after_commas_push(init, parts.last());
        assert(init.push(parts.last()) =~= parts);
        joined_push(init, parts.last(), seq![',']);
        if init.len() == 0 {
            assert(after_commas(init) =~= Seq::empty());
        }
        assert(after_commas(parts) =~= seq![','] + joined(parts, seq![',']));
    } else {
        assert(parts.map_values(|m: Seq<char>| seq![','] + m) =~= Seq::empty());
    }
}

/// More parts after others that are not empty come after a comma each.
pub proof fn joined_then(a: Seq<Seq<char>>, b: Seq<Seq<char>>)
    requires
        a.len() > 0,
    ensures
        joined(a + b, seq![',']) == joined(a, seq![',']) + after_commas(b),
    decreases b.len(),
{
    after_commas_is_joined(b);
    if b.len() == 0 {
        assert(a + b =~= a);
        assert(joined(a, seq![',']) + after_commas(b) =~= joined(a, seq![',']));
    } else {
        let init = b.drop_last();
        joined_then(a, init);
        assert((a + init).push(b.last()) =~= a + b);
        joined_push(a + init, b.last(), seq![',']);
        assert(init.push(b.last()) =~= b);
        after_commas_push(init, b.last());
        assert(joined(a + b, seq![',']) =~= joined(a, seq![',']) + after_commas(b));
    }
}

/// Parts after commas, and more of them, are all of them after commas.
pub proof fn after_commas_then(a: Seq<Seq<char>>, b: Seq<Seq<char>>)
    ensures
        after_commas(a + b) == after_commas(a) + after_commas(b),
    decreases b.len(),
{
    after_commas_is_joined(b);
    if b.len() == 0 {
        assert(a + b =~= a);
        assert(after_commas(a) + after_commas(b) =~= after_commas(a));
    } else {
        let init = b.drop_last();
        after_commas_then(a, init);
        assert((a + init).push(b.last()) =~= a + b);
        after_commas_push(a + init, b.last());
        assert(init.push(b.last()) =~= b);
        after_commas_push(init, b.last());
        assert(after_commas(a + b) =~= after_commas(a) + after_commas(b));
    }
}

/// Appends a part to a list that is being joined, with a comma before it unless it
/// is the first.
pub fn push_part(list: &mut String, any: &mut bool, part: &str)
    ensures
        *final(any),
        final(list)@ == if *old(any) {
            old(list)@ + seq![','] + part@
        } else {
            old(list)@ + part@
        },
{
    if *any {
        list.push(',');
        assert(list@ =~= old(list)@ + seq![',']);
    }
    list.append(part);
    *any = true;
}

/// The digit below sixteen as a character.
fn hex_digit(d: u32) -> (c: char)
    requires
        d < 16,
    ensures
        c == digit_char(d as int),
{
    match d {
        0 => '0',
        1 => '1',
        2 => '2',
        3 => '3',
        4 => '4',
        5 => '5',
        6 => '6',
        7 => '7',
        8 => '8',
        9 => '9',
        10 => 'a',
        11 => 'b',
        12 => 'c',
        13 => 'd',
        14 => 'e',
        _ => 'f',
    }
}

/// Appends one character as it stands inside a JSON string.
fn push_escaped(buf: &mut String, c: char)
    ensures
        final(buf)@ == old(buf)@ + json_escape(c, false),
{
    let code: u32 = c as u32;
    if c == '"' {
        buf.push('\\');
        buf.push('"');
    } else if c == '\\' {
        buf.push('\\');
        buf.push('\\');
    } else if c == '\n' {
        buf.push('\\');
        buf.push('n');
    } else if c == '\r' {
        buf.push('\\');
        buf.push('r');
    } else if c == '\t' {
        buf.push('\\');
        buf.push('t');
    } else if code < 32 {
        buf.push('\\');
        buf.push('u');
        buf.push('0');
        buf.push('0');
        buf.push(hex_digit(code / 16));
        buf.push(hex_digit(code % 16));
    } else {
        buf.push(c);
    }
    assert(buf@ =~= old(buf)@ + json_escape(c, false));
}

/// Appends the JSON string of `s`, in which only the quote, the backslash, the
/// line feed, the carriage return and the tab have short escapes.
pub fn push_json_string(buf: &mut String, s: &str)
    ensures
        final(buf)@ == old(buf)@ + json_quoted_plain(s@),
{
    buf.push('"');
    let ghost start = buf@;
    for c in it: s.chars()
        invariant
            it.seq() == s@,
            buf@ == start + json_escaped(s@.take(it.index()), false),
    {
        push_escaped(buf, c);
        proof {
            let t = s@.take(it.index() + 1);
            assert(t.drop_last() =~= s@.take(it.index()));
            assert(buf@ =~= start + json_escaped(t, false));
        }
    }
    assert(s@.take(s@.len() as int) =~= s@);
    buf.push('"');
    assert(buf@ =~= old(buf)@ + json_quoted_plain(s@));
}

// ---------------------------------------------------------------------------
// What texts keep
// ---------------------------------------------------------------------------

/// The number that a digit below sixteen stands for.
pub open spec fn digit_value(c: char) -> int {
    if '0' <= c <= '9' {
        c as int - '0' as int
    } else {
        c as int - 'a' as int + 10
    }
}

/// The number that decimal digits stand for.
pub open spec fn decimal_value(s: Seq<char>) -> int
    decreases s.len(),
{
    if s.len() == 0 {
        0
    } else {
        10 * decimal_value(s.drop_last()) + digit_value(s.last())
    }
}

/// The decimal digits of a number stand for it.
pub proof fn decimal_round_trip(n: nat)
    ensures
        decimal_value(decimal(n)) == n,
        decimal(n).len() > 0,
    decreases n,
{
    reveal_with_fuel(decimal_value, 2);
    if n >= 10 {
        decimal_round_trip(n / 10);
        let d = digit_char((n % 10) as int);
        assert(decimal(n).drop_last() =~= decimal(n / 10));
        assert(decimal(n).last() == d);
    } else {
        assert(decimal(n).drop_last() =~= Seq::empty());
    }
}

/// The character that an escape stands for, and what comes after it.
pub open spec fn unescape_one(t: Seq<char>) -> (char, Seq<char>) {
    if t[0] != '\\' {
        (t[0], t.skip(1))
    } else if t[1] == 'n' {
        ('\n', t.skip(2))
    } else if t[1] == 'r' {
        ('\r', t.skip(2))
    } else if t[1] == 't' {
        ('\t', t.skip(2))
    } else if t[1] == 'b' {
        (8 as char, t.skip(2))
    } else if t[1] == 'f' {
        (12 as char, t.skip(2))
    } else if t[1] == 'u' {
        ((16 * digit_value(t[4]) + digit_value(t[5])) as char, t.skip(6))
    } else {
        (t[1], t.skip(2))
    }
}

/// The text that an escaped one stands for.
pub open spec fn json_unescaped(t: Seq<char>) -> Seq<char>
    decreases t.len(),
{
    if t.len() == 0 {
        Seq::empty()
    } else {
        let (c, rest) = unescape_one(t);
        if rest.len() < t.len() {
            seq![c] + json_unescaped(rest)
        } else {
            Seq::empty()
        }
    }
}

/// The escape of a text starts with that of its first character.
proof fn escaped_from_front(s: Seq<char>, short: bool)
    requires
        s.len() > 0,
    ensures
        json_escaped(s, short) == json_escape(s[0], short) + json_escaped(s.drop_first(), short),
    decreases s.len(),
{
    if s.len() == 1 {
        assert(s.drop_last() =~= Seq::empty());
        assert(s.drop_first() =~= Seq::empty());
        assert(json_escaped(s, short) =~= json_escape(s[0], short) + json_escaped(
            s.drop_first(),
            short,
        ));
    } else {
        escaped_from_front(s.drop_last(), short);
        assert(s.drop_last().drop_first() =~= s.drop_first().drop_last());
        assert(json_escaped(s, short) =~= json_escape(s[0], short) + json_escaped(
            s.drop_first(),
            short,
        ));
    }
}

proof fn unescape_escape(c: char, short: bool, rest: Seq<char>)
    ensures
        unescape_one(json_escape(c, short) + rest) == (c, rest),
{
    let e = json_escape(c, short);
    let t = e + rest;
    let n = c as int;
    assert(t.skip(e.len() as int) =~= rest);
    if c != '"' && c != '\\' && c != '\n' && c != '\r' && c != '\t' && !(short && (n == 8 || n
        == 12)) && n < 32 {
        assert(t[4] == digit_char(n / 16));
        assert(t[5] == digit_char(n % 16));
        assert(digit_value(digit_char(n / 16)) == n / 16);
        assert(digit_value(digit_char(n % 16)) == n % 16);
        assert(16 * (n / 16) + n % 16 == n);
    }
}

/// An escaped text stands for the text that was escaped.
pub proof fn escape_round_trip(s: Seq<char>, short: bool)
    ensures
        json_unescaped(json_escaped(s, short)) == s,
    decreases s.len(),
{
    if s.len() > 0 {
        let rest = s.drop_first();
        escaped_from_front(s, short);
        escape_round_trip(rest, short);
        unescape_escape(s[0], short, json_escaped(rest, short));
        assert(json_escape(s[0], short).len() > 0);
        assert(seq![s[0]] + rest =~= s);
    }
}

/// Whether no character of a text is below U+0020: no line break, and none of the characters that
/// JSON strings can't hold.
pub open spec fn printable(s: Seq<char>) -> bool {
    forall|i: int| 0 <= i < s.len() ==> (#[trigger] s[i]) as int >= 32
}

/// Whether none of the texts has a control character.
pub open spec fn all_printable(parts: Seq<Seq<char>>) -> bool {
    forall|i: int| 0 <= i < parts.len() ==> printable(#[trigger] parts[i])
}

/// Texts without control characters have none when they are joined.
pub proof fn joined_is_printable(parts: Seq<Seq<char>>, separator: Seq<char>)
    requires
        all_printable(parts),
        printable(separator),
    ensures
        printable(joined(parts, separator)),
        printable(concat(parts)),
    decreases parts.len(),
{
    if parts.len() > 0 {
        let init = parts.drop_last();
        assert forall|i: int| 0 <= i < init.len() implies printable(#[trigger] init[i]) by {
            assert(parts[i] == init[i]);
        }
        joined_is_printable(init, separator);
        assert(printable(parts[parts.len() - 1]));
    }
}

} // verus!
