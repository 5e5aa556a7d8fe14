//! Lists of texts as JSON.

use vstd::prelude::*;
use vstd::string::*;

use crate::text::texts;

verus! {

/// The error type of `serde_json`.
#[verifier::external_type_specification]
#[verifier::external_body]
pub struct ExJsonError(serde_json::Error);

/// The JSON text that `serde_json::to_string` makes of a list of texts, if it makes one.
pub uninterp spec fn json_list(items: Seq<Seq<char>>) -> Option<Seq<char>>;

/// Whether a text stands in JSON as it is: it has no quote, no backslash and no
/// control character.
pub open spec fn is_plain(item: Seq<char>) -> bool {
    forall|i: int|
        0 <= i < item.len() ==> #[trigger] item[i] >= ' ' && item[i] != '"' && item[i] != '\\'
}

/// A plain text in JSON.
pub open spec fn quoted(item: Seq<char>) -> Seq<char> {
    seq!['"'] + item + seq!['"']
}

/// Plain texts in JSON, with commas between them.
pub open spec fn quoted_items(items: Seq<Seq<char>>) -> Seq<char>
    decreases items.len(),
{
    if items.len() == 0 {
        Seq::empty()
    } else if items.len() == 1 {
        quoted(items[0])
    } else {
        quoted_items(items.drop_last()) + seq![','] + quoted(items.last())
    }
}

/// A list of plain texts in JSON.
pub open spec fn quoted_list(items: Seq<Seq<char>>) -> Seq<char> {
    seq!['['] + quoted_items(items) + seq![']']
}

/// Whether all the texts of a list are plain.
pub open spec fn all_plain(items: Seq<Seq<char>>) -> bool {
    forall|i: int| 0 <= i < items.len() ==> is_plain(#[trigger] items[i])
}

/// The text of an outcome, if it is one.
pub open spec fn written(r: Result<String, serde_json::Error>) -> Option<Seq<char>> {
    match r {
        Ok(json) => Some(json@),
        Err(_) => None,
    }
}

/// Calls `serde_json::to_string` on a list of strings. The outcome depends on
/// the list alone. Plain texts come out between quotes, with commas between them
/// and brackets around the whole; how other texts are escaped is left unsaid.
#[verifier::external_body]
pub(crate) fn to_json(items: &Vec<String>) -> (r: Result<String, serde_json::Error>)
    ensures
        json_list(texts(items@)) == written(r),
        all_plain(texts(items@)) ==> written(r) == Some(quoted_list(texts(items@))),
{
    serde_json::to_string(items)
}

} // verus!
