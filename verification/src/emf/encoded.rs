//! JSON that is encoded once and written many times.

use vstd::prelude::*;
use vstd::string::*;

use crate::text::{
    joined, joined_push, json_quoted, json_string_array, serde_json_str, serde_json_strs, texts,
};

verus! {

/// A string as JSON.
pub struct JsonEncodedString {
    pub encoded_str: String,
    /// The string itself.
    pub text: Ghost<Seq<char>>,
}

impl View for JsonEncodedString {
    type V = Seq<char>;

    open spec fn view(&self) -> Seq<char> {
        self.text@
    }
}

impl JsonEncodedString {
    /// The JSON is that of the string.
    pub open spec fn wf(self) -> bool {
        self.encoded_str@ == json_quoted(self@)
    }

    /// Encodes a string.
    pub fn encode(input: &str) -> (res: JsonEncodedString)
        ensures
            res.wf(),
            res@ == input@,
    {
        JsonEncodedString { encoded_str: serde_json_str(input), text: Ghost(input@) }
    }
}

/// A list of strings as JSON.
pub struct JsonEncodedArray {
    pub encoded_array: String,
    /// The strings themselves.
    pub texts: Ghost<Seq<Seq<char>>>,
}

impl View for JsonEncodedArray {
    type V = Seq<Seq<char>>;

    open spec fn view(&self) -> Seq<Seq<char>> {
        self.texts@
    }
}

/// A list of JSON strings has two characters more than what stands between the
/// brackets, and nothing stands there only if the list is empty.
proof fn array_length(list: Seq<Seq<char>>)
    ensures
        json_string_array(list).len() >= 2,
        json_string_array(list).len() == 2 <==> list.len() == 0,
        json_string_array(list).last() == ']',
{
    let parts = list.map_values(|s: Seq<char>| json_quoted(s));
    if list.len() > 0 {
        assert(parts.last().len() >= 2);
        assert(joined(parts, seq![',']).len() >= 2);
    }
}

/// Adding strings to a list adds their JSON to its parts.
proof fn array_parts(list: Seq<Seq<char>>, s: Seq<char>)
    ensures
        list.push(s).map_values(|s: Seq<char>| json_quoted(s)) == list.map_values(
            |s: Seq<char>| json_quoted(s),
        ).push(json_quoted(s)),
{
    assert(list.push(s).map_values(|s: Seq<char>| json_quoted(s)) =~= list.map_values(
        |s: Seq<char>| json_quoted(s),
    ).push(json_quoted(s)));
}

impl JsonEncodedArray {
    /// The JSON is that of the strings.
    pub open spec fn wf(self) -> bool {
        self.encoded_array@ == json_string_array(self@)
    }

    /// Encodes a list of strings.
    pub fn encode(input: &Vec<String>) -> (res: JsonEncodedArray)
        ensures
            res.wf(),
            res@ == texts(input@),
    {
        JsonEncodedArray { encoded_array: serde_json_strs(input.as_slice()), texts: Ghost(texts(input@)) }
    }

    /// A copy of the list.
    pub fn duplicate(&self) -> (res: JsonEncodedArray)
        ensures
            res == *self,
    {
        JsonEncodedArray { encoded_array: self.encoded_array.clone(), texts: self.texts }
    }

    /// The list with more strings at its end.
    pub fn extend_with_strings(self, extend_with: &Vec<String>) -> (res: JsonEncodedArray)
        requires
            self.wf(),
        ensures
            res.wf(),
            res@ == self@ + texts(extend_with@),
    {
        proof {
            array_length(self@);
        }
        let n: usize = self.encoded_array.as_str().unicode_len();
        let mut any = n != 2;
        let mut array = self.encoded_array.as_str().substring_char(0, n - 1).to_owned();
        let ghost more = texts(extend_with@);
        let ghost parts = self@.map_values(|s: Seq<char>| json_quoted(s));
        proof {
            assert(array@ =~= seq!['['] + joined(parts, seq![',']));
            assert(self@ + more.take(0) =~= self@);
        }
        for i in 0..extend_with.len()
            invariant
                more == texts(extend_with@),
                any == ((self@ + more.take(i as int)).len() > 0),
                array@ == seq!['['] + joined(
                    (self@ + more.take(i as int)).map_values(|s: Seq<char>| json_quoted(s)),
                    seq![','],
                ),
        {
            let ghost before = self@ + more.take(i as int);
            let part = serde_json_str(extend_with[i].as_str());
            crate::text::push_part(&mut array, &mut any, part.as_str());
            proof {
                let list = before.map_values(|s: Seq<char>| json_quoted(s));
                assert(self@ + more.take(i + 1) =~= before.push(more[i as int]));
                array_parts(before, more[i as int]);
                joined_push(list, part@, seq![',']);
                assert(array@ =~= seq!['['] + joined(list.push(part@), seq![',']));
            }
        }
        assert(more.take(more.len() as int) =~= more);
        array.push(']');
        let res = JsonEncodedArray { encoded_array: array, texts: Ghost(self@ + more) };
        assert(res.encoded_array@ =~= json_string_array(res@));
        res
    }
}

} // verus!
