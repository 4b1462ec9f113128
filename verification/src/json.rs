//! JSON text of strings, for the frames that subscribe to a feed.

use crate::text::texts;
use vstd::prelude::*;
use vstd::string::*;

verus! {

/// The hexadecimal digit `d`, for `d < 16`.
pub open spec fn hex_char(d: nat) -> char {
    if d < 10 {
        ('0' as nat + d) as char
    } else {
        ('a' as nat + d - 10) as char
    }
}

/// How a character is written inside a JSON string: quotation marks, backslashes
/// and control characters are escaped, everything else stands for itself.
pub open spec fn escaped(c: char) -> Seq<char> {
    if c == '"' || c == '\\' {
        seq!['\\', c]
    } else if c == '\u{8}' {
        seq!['\\', 'b']
    } else if c == '\t' {
        seq!['\\', 't']
    } else if c == '\n' {
        seq!['\\', 'n']
    } else if c == '\u{c}' {
        seq!['\\', 'f']
    } else if c == '\r' {
        seq!['\\', 'r']
    } else if (c as nat) < 32 {
        seq!['\\', 'u', '0', '0', hex_char(c as nat / 16), hex_char(c as nat % 16)]
    } else {
        seq![c]
    }
}

/// The characters of `text`, each as it is written inside a JSON string.
pub open spec fn all_escaped(text: Seq<char>) -> Seq<char>
    decreases text.len(),
{
    if text.len() == 0 {
        seq![]
    } else {
        all_escaped(text.drop_last()) + escaped(text.last())
    }
}

/// `text` as a JSON string.
pub open spec fn json_string(text: Seq<char>) -> Seq<char> {
    seq!['"'] + all_escaped(text) + seq!['"']
}

/// Calls `serde_json::to_string` on a string: quotation marks around the text,
/// and escapes in it. It does not fail on a string.
#[verifier::external_body]
fn string_to_json(text: &str) -> (json: String)
    ensures
        json@ == json_string(text@),
{
    serde_json::to_string(text).expect("a string serializes")
}

/// The elements of a JSON array of strings, with commas between them.
pub open spec fn json_elements(items: Seq<Seq<char>>) -> Seq<char>
    decreases items.len(),
{
    if items.len() == 0 {
        seq![]
    } else if items.len() == 1 {
        json_string(items[0])
    } else {
        json_elements(items.drop_last()) + ","@ + json_string(items.last())
    }
}

/// A JSON array of strings.
pub open spec fn json_array(items: Seq<Seq<char>>) -> Seq<char> {
    "["@ + json_elements(items) + "]"@
}

/// Writes a JSON array of strings.
pub fn strings_to_json(items: &[String]) -> (json: String)
    ensures
        json@ == json_array(texts(items@)),
{
    let ghost all = texts(items@);
    let mut json: String = String::new();
    json.append("[");
    let mut i: usize = 0;
    assert(all.take(0) =~= Seq::empty());
    assert(json@ =~= "["@ + json_elements(all.take(0)));
    while i < items.len()
        invariant
            i <= items@.len(),
            all == texts(items@),
            json@ == "["@ + json_elements(all.take(i as int)),
        decreases items@.len() - i,
    {
        proof {
            assert(all.take(i + 1).drop_last() =~= all.take(i as int));
            assert(all.take(i + 1).last() == all[i as int]);
        }
        if i > 0 {
            json.append(",");
        } else {
            assert(all.take(0) =~= Seq::empty());
        }
        json.append(string_to_json(items[i].as_str()).as_str());
        i = i + 1;
        assert(json@ =~= "["@ + json_elements(all.take(i as int)));
    }
    assert(all.take(i as int) =~= all);
    json.append("]");
    json
}

/// A text without quotation marks, backslashes and control characters stands in
/// a JSON string as it is.
pub proof fn law_plain_text_is_not_escaped(text: Seq<char>)
    requires
        forall|i: int|
            0 <= i < text.len() ==> ' ' <= #[trigger] text[i] && text[i] != '"' && text[i] != '\\',
    ensures
        json_string(text) == seq!['"'] + text + seq!['"'],
    decreases text.len(),
{
    if text.len() > 0 {
        let front = text.drop_last();
        assert forall|i: int| 0 <= i < front.len() implies ' ' <= #[trigger] front[i] && front[i]
            != '"' && front[i] != '\\' by {
            assert(front[i] == text[i]);
        }
        law_plain_text_is_not_escaped(front);
        let whole = seq!['"'] + front + seq!['"'];
        assert(json_string(front).subrange(1, json_string(front).len() - 1) =~= all_escaped(front));
        assert(whole.subrange(1, whole.len() - 1) =~= front);
        assert(text[text.len() - 1] == text.last());
        assert(front + seq![text.last()] =~= text);
    } else {
        assert(all_escaped(text) =~= text);
    }
}

/// An array without elements is a pair of brackets, and each element more stands
/// at its end, as a JSON string, with a comma before it unless it is the first.
pub proof fn law_every_element_is_listed(items: Seq<Seq<char>>, item: Seq<char>)
    ensures
        json_array(Seq::empty()) == seq!['[', ']'],
        json_array(items).len() >= 2,
        json_array(items.push(item)) == json_array(items).drop_last() + (if items.len() == 0 {
            Seq::empty()
        } else {
            seq![',']
        }) + seq!['"'] + all_escaped(item) + seq!['"', ']'],
{
    reveal_strlit("[");
    reveal_strlit("]");
    reveal_strlit(",");
    let more = items.push(item);
    assert(json_elements(Seq::empty()) =~= Seq::empty());
    assert(json_array(Seq::empty()) =~= seq!['[', ']']);
    assert(json_array(items).drop_last() =~= "["@ + json_elements(items));
    assert(more.drop_last() =~= items);
    if items.len() == 0 {
        assert(items =~= Seq::empty());
        assert(more.len() == 1 && more[0] == item);
    }
    assert(json_array(more) =~= json_array(items).drop_last() + (if items.len() == 0 {
        Seq::empty()
    } else {
        seq![',']
    }) + seq!['"'] + all_escaped(item) + seq!['"', ']']);
}

/// A text is written character by character.
pub proof fn law_characters_are_written_one_by_one(text: Seq<char>, c: char)
    ensures
        all_escaped(Seq::empty()).len() == 0,
        all_escaped(text.push(c)) == all_escaped(text) + escaped(c),
{
    assert(text.push(c).drop_last() =~= text);
}

} // verus!
