//! The pieces of the spreadsheet export that do not touch the database or
//! the file: the token list, the header row, and the paging of the answers.
use vstd::prelude::*;
use crate::text::str_equal;

verus! {

/// How many answers are read and written per batch.
pub const BATCH_SIZE: i64 = 10000;

/// The entries of a JSON object whose values are all strings, by key in
/// ascending order, as `serde_json` reads them into an ordered map; `None`
/// when the text is not such an object.
pub uninterp spec fn json_string_map(json: Seq<char>) -> Option<Seq<(Seq<char>, Seq<char>)>>;

/// The values of a list of text pairs.
pub open spec fn pair_views(v: Seq<(String, String)>) -> Seq<(Seq<char>, Seq<char>)> {
    v.map_values(|p: (String, String)| (p.0@, p.1@))
}

/// Wraps `serde_json::from_str` into an ordered map of strings, whose
/// entries are returned by key: `None` exactly when the parse fails, else
/// the entries named by [`json_string_map`]. Nothing is stated of what the
/// name is on a given text.
#[verifier::external_body]
fn parse_string_map(json: &str) -> (r: Option<Vec<(String, String)>>)
    ensures
        r is Some <==> json_string_map(json@) is Some,
        r matches Some(v) ==> pair_views(v@) == json_string_map(json@)->0,
{
    match serde_json::from_str::<std::collections::BTreeMap<String, String>>(json) {
        Ok(map) => Some(map.into_iter().collect()),
        Err(_) => None,
    }
}

/// Reads the token list: a JSON object from token key to token identifier.
/// `None` when the text is not such an object.
pub fn tokens(token_list_json: &str) -> (r: Option<Vec<(String, String)>>)
    ensures
        r is Some <==> json_string_map(token_list_json@) is Some,
        r matches Some(v) ==> pair_views(v@) == json_string_map(token_list_json@)->0,
{
    parse_string_map(token_list_json)
}

/// What the token list gives for `input`: the identifier of the first entry
/// with that key, or `input` itself when there is none.
pub open spec fn token_type_of(tokens: Seq<(Seq<char>, Seq<char>)>, input: Seq<char>) -> Seq<char> {
    if exists|i: int| 0 <= i < tokens.len() && (#[trigger] tokens[i]).0 == input {
        tokens[choose|i: int|
            0 <= i < tokens.len() && (#[trigger] tokens[i]).0 == input && forall|j: int|
                0 <= j < i ==> tokens[j].0 != input].1
    } else {
        input
    }
}

/// The identifier that the token list gives a token key; the key itself
/// when the list does not name it.
pub fn get_token_type_from_key(tokens: &Vec<(String, String)>, input: &str) -> (r: String)
    ensures
        r@ == token_type_of(pair_views(tokens@), input@),
{
    let ghost t = pair_views(tokens@);
    let mut i: usize = 0;
    while i < tokens.len()
        invariant
            i <= tokens@.len(),
            t == pair_views(tokens@),
            forall|j: int| 0 <= j < i ==> t[j].0 != input@,
        decreases tokens@.len() - i,
    {
        if str_equal(tokens[i].0.as_str(), input) {
            proof {
                assert(t[i as int].0 == input@);
                let k = choose|k: int|
                    0 <= k < t.len() && (#[trigger] t[k]).0 == input@ && forall|j: int|
                        0 <= j < k ==> t[j].0 != input@;
                if k < i {
                } else if k > i {
                    assert(t[i as int].0 != input@);
                }
            }
            return tokens[i].1.clone();
        }
        i = i + 1;
    }
    String::from_str(input)
}

/// The header row of the export, column by column.
pub open spec fn export_header_texts() -> Seq<Seq<char>> {
    seq![
        "Project key"@,
        "Session ID"@,
        "Theme key"@,
        "Question key"@,
        "Timestamp (UTC)"@,
        "RFID Token"@,
        "Token Identifier"@,
        "Option"@,
    ]
}

/// The header row of the export.
pub fn export_headers() -> (r: Vec<&'static str>)
    ensures
        r@.map_values(|s: &str| s@) == export_header_texts(),
{
    let r = vec![
        "Project key",
        "Session ID",
        "Theme key",
        "Question key",
        "Timestamp (UTC)",
        "RFID Token",
        "Token Identifier",
        "Option",
    ];
    assert(r@.map_values(|s: &str| s@) =~= export_header_texts());
    r
}

/// The offset of the next batch of answers to export: batch `page` starts
/// at `page * BATCH_SIZE`, and there is none once that reaches `count`.
pub fn batch_offset(page: i64, count: i64) -> (r: Option<i64>)
    requires
        0 <= page <= i64::MAX / BATCH_SIZE,
    ensures
        r == if page * BATCH_SIZE < count {
            Some((page * BATCH_SIZE) as i64)
        } else {
            None
        },
{
    let offset = page * BATCH_SIZE;
    if offset < count {
        Some(offset)
    } else {
        None
    }
}

} // verus!
