//! What counts as JSON.

use vstd::prelude::*;
use vstd::string::*;

use crate::text::{
    decimal, digit_char, joined, joined_is_printable, json_escape, json_escaped, json_quoted,
    json_quoted_plain, printable,
};

verus! {

// ---------------------------------------------------------------------------
// Numbers and strings
// ---------------------------------------------------------------------------

/// Whether a text consists of decimal digits, and of at least one.
pub open spec fn is_digits(s: Seq<char>) -> bool {
    s.len() > 0 && forall|i: int| 0 <= i < s.len() ==> '0' <= #[trigger] s[i] <= '9'
}

/// Whether a text is the whole part of a number: digits without leading zeros.
pub open spec fn is_whole_part(s: Seq<char>) -> bool {
    is_digits(s) && (s.len() == 1 || s[0] != '0')
}

/// Whether a text is the fraction of a number, if it has one.
pub open spec fn is_fraction(s: Seq<char>) -> bool {
    s.len() == 0 || (s[0] == '.' && is_digits(s.skip(1)))
}

/// Whether a text is the exponent of a number, if it has one.
pub open spec fn is_exponent(s: Seq<char>) -> bool {
    s.len() == 0 || ((s[0] == 'e' || s[0] == 'E') && (is_digits(s.skip(1)) || (s.len() > 1 && (s[1]
        == '+' || s[1] == '-') && is_digits(s.skip(2)))))
}

/// Whether a text is a number without its sign, of which the whole part ends at `i` and the
/// fraction at `j`.
pub open spec fn is_unsigned(s: Seq<char>, i: int, j: int) -> bool {
    0 <= i <= j <= s.len() && is_whole_part(s.take(i)) && is_fraction(s.subrange(i, j))
        && is_exponent(s.skip(j))
}

/// Whether a text is a number, of which the sign ends at `k`, the whole part `i` characters after
/// that and the fraction `j` characters after it.
pub open spec fn is_number_split(s: Seq<char>, k: int, i: int, j: int) -> bool {
    (k == 0 || (k == 1 && s.len() > 0 && s[0] == '-')) && is_unsigned(s.skip(k), i, j)
}

/// Whether a text is a number.
#[verifier::opaque]
pub open spec fn is_number(s: Seq<char>) -> bool {
    exists|k: int, i: int, j: int| is_number_split(s, k, i, j)
}

/// Whether a character is a hexadecimal digit.
pub open spec fn is_hex(c: char) -> bool {
    '0' <= c <= '9' || 'a' <= c <= 'f' || 'A' <= c <= 'F'
}

/// Whether a character can stand after a backslash on its own.
pub open spec fn is_short_escape(c: char) -> bool {
    c == '"' || c == '\\' || c == '/' || c == 'b' || c == 'f' || c == 'n' || c == 'r' || c == 't'
}

/// Whether a text can stand between the quotes of a string.
pub open spec fn is_string_body(s: Seq<char>) -> bool
    decreases s.len(),
{
    if s.len() == 0 {
        true
    } else if s[0] != '\\' {
        s[0] as int >= 32 && s[0] != '"' && is_string_body(s.skip(1))
    } else if s.len() > 1 && is_short_escape(s[1]) {
        is_string_body(s.skip(2))
    } else {
        s.len() > 5 && s[1] == 'u' && is_hex(s[2]) && is_hex(s[3]) && is_hex(s[4]) && is_hex(s[5])
            && is_string_body(s.skip(6))
    }
}

/// Whether a text is a string.
#[verifier::opaque]
pub open spec fn is_string(s: Seq<char>) -> bool {
    s.len() > 1 && s[0] == '"' && s.last() == '"' && is_string_body(s.subrange(1, s.len() - 1))
}

// ---------------------------------------------------------------------------
// Values
// ---------------------------------------------------------------------------

/// The list of the given elements.
pub open spec fn list_of(parts: Seq<Seq<char>>) -> Seq<char> {
    "["@ + joined(parts, seq![',']) + "]"@
}

/// The object of the given members.
pub open spec fn object_of(parts: Seq<Seq<char>>) -> Seq<char> {
    "{"@ + joined(parts, seq![',']) + "}"@
}

/// Whether a text is a JSON value without white space that is at most `depth` lists and objects
/// deep.
pub open spec fn is_json_at(depth: nat, s: Seq<char>) -> bool
    decreases depth, 1nat,
{
    ||| is_number(s)
    ||| is_string(s)
    ||| s == "null"@
    ||| s == "true"@
    ||| s == "false"@
    ||| depth > 0 && exists|parts: Seq<Seq<char>>|
        s == #[trigger] list_of(parts) && forall|i: int|
            0 <= i < parts.len() ==> is_json_at((depth - 1) as nat, #[trigger] parts[i])
    ||| depth > 0 && exists|parts: Seq<Seq<char>>|
        s == #[trigger] object_of(parts) && forall|i: int|
            0 <= i < parts.len() ==> is_member_at((depth - 1) as nat, #[trigger] parts[i])
}

/// Whether a text is a member of an object: a string, a colon and a value that is at most `depth`
/// deep.
pub open spec fn is_member_at(depth: nat, s: Seq<char>) -> bool
    decreases depth, 2nat,
{
    exists|n: int|
        0 <= n < s.len() && is_string(s.take(n)) && #[trigger] s[n] == ':' && is_json_at(
            depth,
            s.skip(n + 1),
        )
}

/// Whether a text is a JSON value without white space.
#[verifier::opaque]
pub open spec fn is_json(s: Seq<char>) -> bool {
    exists|depth: nat| is_json_at(depth, s)
}

/// Whether a text is a JSON value and a line break, without any other line break.
pub open spec fn is_json_line(s: Seq<char>) -> bool {
    s.len() > 0 && s.last() == '\n' && is_json(s.drop_last()) && printable(s.drop_last())
}

/// Whether a text is a member of an object.
#[verifier::opaque]
pub open spec fn is_member(s: Seq<char>) -> bool {
    exists|depth: nat| is_member_at(depth, s)
}

// ---------------------------------------------------------------------------
// Numbers and strings that are written
// ---------------------------------------------------------------------------

proof fn decimal_is_whole(n: nat)
    ensures
        is_whole_part(decimal(n)),
        n > 0 ==> decimal(n)[0] != '0',
    decreases n,
{
    if n >= 10 {
        decimal_is_whole(n / 10);
        assert(decimal(n)[0] == decimal(n / 10)[0]);
    }
}

/// A natural number in decimal digits is a number.
pub proof fn decimal_is_json(n: nat)
    ensures
        is_number(decimal(n)),
        is_json(decimal(n)),
{
    reveal(is_number);
    let s = decimal(n);
    decimal_is_whole(n);
    assert(s.skip(0) =~= s);
    assert(s.take(s.len() as int) =~= s);
    assert(is_number_split(s, 0, s.len() as int, s.len() as int));
    number_is_json(s);
}

/// A number is JSON.
pub proof fn number_is_json(s: Seq<char>)
    requires
        is_number(s),
    ensures
        is_json(s),
{
    reveal(is_json);
    assert(is_json_at(0, s));
}

/// A string is JSON.
pub proof fn string_is_json(s: Seq<char>)
    requires
        is_string(s),
    ensures
        is_json(s),
{
    reveal(is_json);
    assert(is_json_at(0, s));
}

/// Nothing is JSON too, under the name of `null`.
pub proof fn null_is_json()
    ensures
        is_json("null"@),
{
    reveal(is_json);
    assert(is_json_at(0, "null"@));
}

/// A number that ends in `.0` is a number without it.
pub proof fn whole_number_is_number(s: Seq<char>)
    requires
        is_number(s),
        s.len() >= 2,
        s[s.len() - 2] == '.',
        s[s.len() - 1] == '0',
    ensures
        is_number(s.take(s.len() - 2)),
{
    reveal(is_number);
    let (k, i, j) = choose|k: int, i: int, j: int| is_number_split(s, k, i, j);
    let t = s.skip(k);
    let n = t.len() as int;
    let whole = t.take(i);
    let fraction = t.subrange(i, j);
    let exponent = t.skip(j);
    assert(whole[0] == t[0]);
    assert(n >= 2 && t[n - 2] == '.' && t[n - 1] == '0');
    if n - 2 < i {
        assert(whole[n - 2] == '.');
    } else if n - 2 >= j {
        let p = n - 2 - j;
        assert(exponent[p] == '.');
        if p >= 2 {
            assert(exponent.skip(1)[p - 1] == '.');
            assert(exponent.skip(2)[p - 2] == '.');
        } else if p == 1 {
            assert(exponent.skip(1)[0] == '.');
        }
        assert(false);
    }
    if i < n - 2 {
        assert(fraction.skip(1)[n - 3 - i] == '.');
    }
    assert(i == n - 2);
    if j == n - 1 {
        assert(fraction.skip(1).len() == 0);
    }
    let short = s.take(s.len() - 2);
    assert(short.skip(k) =~= whole);
    assert(whole.take(i) =~= whole);
    assert(short[0] == s[0]);
    assert(is_number_split(short, k, i, i));
}

proof fn bodies_join(a: Seq<char>, b: Seq<char>)
    requires
        is_string_body(a),
        is_string_body(b),
    ensures
        is_string_body(a + b),
    decreases a.len(),
{
    let s = a + b;
    if a.len() == 0 {
        assert(s =~= b);
    } else if a[0] != '\\' {
        bodies_join(a.skip(1), b);
        assert(s.skip(1) =~= a.skip(1) + b);
    } else if a.len() > 1 && is_short_escape(a[1]) {
        bodies_join(a.skip(2), b);
        assert(s.skip(2) =~= a.skip(2) + b);
    } else {
        bodies_join(a.skip(6), b);
        assert(s.skip(6) =~= a.skip(6) + b);
    }
}

proof fn escape_is_body(c: char, short: bool)
    ensures
        is_string_body(json_escape(c, short)),
{
    let e = json_escape(c, short);
    assert(is_string_body(Seq::<char>::empty()));
    if e[0] != '\\' {
        assert(e.skip(1) =~= Seq::empty());
    } else if is_short_escape(e[1]) {
        assert(e.skip(2) =~= Seq::empty());
    } else {
        assert(e.skip(6) =~= Seq::empty());
        assert(is_hex(digit_char(c as int / 16)));
        assert(is_hex(digit_char(c as int % 16)));
    }
}

proof fn escaped_is_body(s: Seq<char>, short: bool)
    ensures
        is_string_body(json_escaped(s, short)),
    decreases s.len(),
{
    if s.len() > 0 {
        escaped_is_body(s.drop_last(), short);
        escape_is_body(s.last(), short);
        bodies_join(json_escaped(s.drop_last(), short), json_escape(s.last(), short));
    }
}

/// A text in quotes, with its characters escaped, is a string.
pub proof fn quoted_is_string(s: Seq<char>)
    ensures
        is_string(json_quoted(s)),
        is_json(json_quoted(s)),
        is_string(json_quoted_plain(s)),
        is_json(json_quoted_plain(s)),
{
    reveal(is_string);
    let q = json_quoted(s);
    let p = json_quoted_plain(s);
    escaped_is_body(s, true);
    escaped_is_body(s, false);
    assert(q.subrange(1, q.len() - 1) =~= json_escaped(s, true));
    assert(p.subrange(1, p.len() - 1) =~= json_escaped(s, false));
    string_is_json(q);
    string_is_json(p);
}

/// A text without quotes, backslashes and control characters is a string when it is put in quotes.
pub proof fn plain_is_string(s: Seq<char>)
    requires
        s.len() > 1,
        s[0] == '"',
        s.last() == '"',
        forall|i: int|
            0 < i < s.len() - 1 ==> (#[trigger] s[i]) as int >= 32 && s[i] != '"' && s[i] != '\\',
    ensures
        is_string(s),
{
    reveal(is_string);
    let body = s.subrange(1, s.len() - 1);
    assert forall|i: int| 0 <= i < body.len() implies (#[trigger] body[i]) as int >= 32 && body[i]
        != '"' && body[i] != '\\' by {
        assert(body[i] == s[i + 1]);
    }
    plain_is_body(body);
}

proof fn plain_is_body(s: Seq<char>)
    requires
        forall|i: int|
            0 <= i < s.len() ==> (#[trigger] s[i]) as int >= 32 && s[i] != '"' && s[i] != '\\',
    ensures
        is_string_body(s),
    decreases s.len(),
{
    if s.len() > 0 {
        plain_is_body(s.skip(1));
    }
}

// ---------------------------------------------------------------------------
// Lists and objects that are written
// ---------------------------------------------------------------------------

/// Where a member has its colon.
spec fn colon(depth: nat, s: Seq<char>) -> int {
    choose|n: int|
        0 <= n < s.len() && is_string(s.take(n)) && #[trigger] s[n] == ':' && is_json_at(
            depth,
            s.skip(n + 1),
        )
}

proof fn deeper(d: nat, e: nat, s: Seq<char>)
    requires
        d <= e,
    ensures
        is_json_at(d, s) ==> is_json_at(e, s),
        is_member_at(d, s) ==> is_member_at(e, s),
    decreases d, 1nat,
{
    if is_json_at(d, s) {
        deeper_value(d, e, s);
    }
    if is_member_at(d, s) {
        let n = colon(d, s);
        deeper_value(d, e, s.skip(n + 1));
        assert(s[n] == ':');
    }
}

proof fn deeper_value(d: nat, e: nat, s: Seq<char>)
    requires
        d <= e,
        is_json_at(d, s),
    ensures
        is_json_at(e, s),
    decreases d, 0nat,
{
    if is_number(s) || is_string(s) || s == "null"@ || s == "true"@ || s == "false"@ {
    } else if exists|parts: Seq<Seq<char>>|
        s == #[trigger] list_of(parts) && forall|i: int|
            0 <= i < parts.len() ==> is_json_at((d - 1) as nat, #[trigger] parts[i]) {
        let parts = choose|parts: Seq<Seq<char>>|
            s == #[trigger] list_of(parts) && forall|i: int|
                0 <= i < parts.len() ==> is_json_at((d - 1) as nat, #[trigger] parts[i]);
        assert forall|i: int| 0 <= i < parts.len() implies is_json_at(
            (e - 1) as nat,
            #[trigger] parts[i],
        ) by {
            deeper((d - 1) as nat, (e - 1) as nat, parts[i]);
        }
    } else {
        let parts = choose|parts: Seq<Seq<char>>|
            s == #[trigger] object_of(parts) && forall|i: int|
                0 <= i < parts.len() ==> is_member_at((d - 1) as nat, #[trigger] parts[i]);
        assert forall|i: int| 0 <= i < parts.len() implies is_member_at(
            (e - 1) as nat,
            #[trigger] parts[i],
        ) by {
            deeper((d - 1) as nat, (e - 1) as nat, parts[i]);
        }
    }
}

/// Whether all of the texts are JSON values.
pub open spec fn all_json(parts: Seq<Seq<char>>) -> bool {
    forall|i: int| 0 <= i < parts.len() ==> is_json(#[trigger] parts[i])
}

/// Whether all of the texts are members of an object.
pub open spec fn all_members(parts: Seq<Seq<char>>) -> bool {
    forall|i: int| 0 <= i < parts.len() ==> is_member(#[trigger] parts[i])
}

proof fn common_depth(parts: Seq<Seq<char>>) -> (depth: nat)
    requires
        all_json(parts),
    ensures
        forall|i: int| 0 <= i < parts.len() ==> is_json_at(depth, #[trigger] parts[i]),
    decreases parts.len(),
{
    reveal(is_json);
    if parts.len() == 0 {
        0
    } else {
        let init = parts.drop_last();
        assert forall|i: int| 0 <= i < init.len() implies is_json(#[trigger] init[i]) by {
            assert(init[i] == parts[i]);
        }
        let d = common_depth(init);
        let last = parts[parts.len() - 1];
        assert(is_json(last));
        let e = choose|e: nat| is_json_at(e, last);
        let depth = if d < e {
            e
        } else {
            d
        };
        assert forall|i: int| 0 <= i < parts.len() implies is_json_at(depth, #[trigger] parts[i]) by {
            if i < init.len() {
                assert(is_json_at(d, init[i]));
                deeper(d, depth, parts[i]);
            } else {
                deeper(e, depth, parts[i]);
            }
        }
        depth
    }
}

proof fn common_member_depth(parts: Seq<Seq<char>>) -> (depth: nat)
    requires
        all_members(parts),
    ensures
        forall|i: int| 0 <= i < parts.len() ==> is_member_at(depth, #[trigger] parts[i]),
    decreases parts.len(),
{
    reveal(is_member);
    if parts.len() == 0 {
        0
    } else {
        let init = parts.drop_last();
        assert forall|i: int| 0 <= i < init.len() implies is_member(#[trigger] init[i]) by {
            assert(init[i] == parts[i]);
        }
        let d = common_member_depth(init);
        let last = parts[parts.len() - 1];
        assert(is_member(last));
        let e = choose|e: nat| is_member_at(e, last);
        let depth = if d < e {
            e
        } else {
            d
        };
        assert forall|i: int| 0 <= i < parts.len() implies is_member_at(
            depth,
            #[trigger] parts[i],
        ) by {
            if i < init.len() {
                assert(is_member_at(d, init[i]));
                deeper(d, depth, parts[i]);
            } else {
                deeper(e, depth, parts[i]);
            }
        }
        depth
    }
}

/// A list of JSON values is JSON.
pub proof fn list_is_json(parts: Seq<Seq<char>>)
    requires
        all_json(parts),
    ensures
        is_json(list_of(parts)),
{
    reveal(is_json);
    let d = common_depth(parts);
    assert(is_json_at((d + 1) as nat, list_of(parts)));
}

/// An object of members is JSON.
pub proof fn object_is_json(parts: Seq<Seq<char>>)
    requires
        all_members(parts),
    ensures
        is_json(object_of(parts)),
{
    reveal(is_json);
    let d = common_member_depth(parts);
    assert(is_json_at((d + 1) as nat, object_of(parts)));
}

/// A string, a colon and a JSON value make a member.
pub proof fn member_of(name: Seq<char>, value: Seq<char>)
    requires
        is_string(name),
        is_json(value),
    ensures
        is_member(name + ":"@ + value),
{
    reveal(is_json);
    reveal(is_member);
    reveal_strlit(":");
    let s = name + ":"@ + value;
    let d = choose|d: nat| is_json_at(d, value);
    let n = name.len() as int;
    assert(s.take(n) =~= name);
    assert(s.skip(n + 1) =~= value);
    assert(s[n] == ':');
    assert(is_member_at(d, s));
}

// ---------------------------------------------------------------------------
// JSON has no control characters
// ---------------------------------------------------------------------------

proof fn number_is_printable(s: Seq<char>)
    requires
        is_number(s),
    ensures
        printable(s),
        s.len() > 0,
{
    reveal(is_number);
    let (sign, i, j) = choose|k: int, i: int, j: int| is_number_split(s, k, i, j);
    let t = s.skip(sign);
    let fraction = t.subrange(i, j);
    let exponent = t.skip(j);
    assert forall|k: int| 0 <= k < t.len() implies (#[trigger] t[k]) as int >= 32 by {
        if k < i {
            assert(t.take(i)[k] == t[k]);
        } else if k < j {
            if k > i {
                assert(fraction.skip(1)[k - i - 1] == t[k]);
            } else {
                assert(fraction[0] == t[k]);
            }
        } else {
            assert(exponent[k - j] == t[k]);
            if k - j >= 2 {
                assert(exponent.skip(1)[k - j - 1] == t[k]);
                assert(exponent.skip(2)[k - j - 2] == t[k]);
            } else if k - j == 1 {
                assert(exponent.skip(1)[0] == t[k]);
            }
        }
    }
    assert forall|k: int| 0 <= k < s.len() implies (#[trigger] s[k]) as int >= 32 by {
        if k >= sign {
            assert(s[k] == t[k - sign]);
        }
    }
}

proof fn body_is_printable(s: Seq<char>)
    requires
        is_string_body(s),
    ensures
        printable(s),
    decreases s.len(),
{
    if s.len() > 0 {
        let n: int = if s[0] != '\\' {
            1
        } else if is_short_escape(s[1]) {
            2
        } else {
            6
        };
        body_is_printable(s.skip(n));
        assert forall|k: int| 0 <= k < s.len() implies (#[trigger] s[k]) as int >= 32 by {
            if k >= n {
                assert(s[k] == s.skip(n)[k - n]);
            }
        }
    }
}

proof fn string_is_printable(s: Seq<char>)
    requires
        is_string(s),
    ensures
        printable(s),
        s.len() > 0,
{
    reveal(is_string);
    let body = s.subrange(1, s.len() - 1);
    body_is_printable(body);
    assert forall|k: int| 0 <= k < s.len() implies (#[trigger] s[k]) as int >= 32 by {
        if 0 < k < s.len() - 1 {
            assert(s[k] == body[k - 1]);
        }
    }
}

proof fn json_at_is_printable(depth: nat, s: Seq<char>)
    requires
        is_json_at(depth, s),
    ensures
        printable(s),
        s.len() > 0,
    decreases depth,
{
    reveal_strlit("null");
    reveal_strlit("true");
    reveal_strlit("false");
    reveal_strlit("[");
    reveal_strlit("]");
    reveal_strlit("{");
    reveal_strlit("}");
    if is_number(s) {
        number_is_printable(s);
    } else if is_string(s) {
        string_is_printable(s);
    } else if s == "null"@ || s == "true"@ || s == "false"@ {
    } else if exists|parts: Seq<Seq<char>>|
        s == #[trigger] list_of(parts) && forall|i: int|
            0 <= i < parts.len() ==> is_json_at((depth - 1) as nat, #[trigger] parts[i]) {
        let parts = choose|parts: Seq<Seq<char>>|
            s == #[trigger] list_of(parts) && forall|i: int|
                0 <= i < parts.len() ==> is_json_at((depth - 1) as nat, #[trigger] parts[i]);
        assert forall|i: int| 0 <= i < parts.len() implies printable(#[trigger] parts[i]) by {
            json_at_is_printable((depth - 1) as nat, parts[i]);
        }
        joined_is_printable(parts, seq![',']);
    } else {
        let parts = choose|parts: Seq<Seq<char>>|
            s == #[trigger] object_of(parts) && forall|i: int|
                0 <= i < parts.len() ==> is_member_at((depth - 1) as nat, #[trigger] parts[i]);
        assert forall|i: int| 0 <= i < parts.len() implies printable(#[trigger] parts[i]) by {
            let m = parts[i];
            let d = (depth - 1) as nat;
            let n = colon(d, m);
            string_is_printable(m.take(n));
            json_at_is_printable(d, m.skip(n + 1));
            assert forall|k: int| 0 <= k < m.len() implies (#[trigger] m[k]) as int >= 32 by {
                if k < n {
                    assert(m[k] == m.take(n)[k]);
                } else if k > n {
                    assert(m[k] == m.skip(n + 1)[k - n - 1]);
                }
            }
        }
        joined_is_printable(parts, seq![',']);
    }
}

/// A JSON value is not empty and has no control characters, so no line breaks either.
pub proof fn json_is_printable(s: Seq<char>)
    requires
        is_json(s),
    ensures
        printable(s),
        s.len() > 0,
{
    reveal(is_json);
    let d = choose|d: nat| is_json_at(d, s);
    json_at_is_printable(d, s);
}

} // verus!
