use vstd::prelude::*;

use crate::model::{all_keys_valid, entries_view, keys_of};

verus! {

/// The error type of the dotenv parser, carried through as it is.
#[verifier::external_type_specification]
#[verifier::external_body]
pub struct ExDotenvError(dotenvy::Error);

/// What dotenvy's parser makes of a text: `None` where it rejects the text, else
/// the keys of its entries in order. Both depend on the text alone.
pub uninterp spec fn dotenv_keys(content: Seq<char>) -> Option<Seq<Seq<char>>>;

/// Relies on `dotenvy::from_read_iter` and its iterator to read the entries of
/// dotenv-formatted text in order, stopping at the first error. Whether it fails,
/// and the keys it yields, depend on the text alone (the process environment is
/// read only to substitute `$VAR` in values). Each key is taken by its key
/// scanner: an ASCII letter or `_`, then ASCII letters, digits, `_` and `.`. Text
/// without lines yields no entry. Values may depend on the process environment,
/// so nothing more is stated of them.
#[verifier::external_body]
fn parse_dotenv(content: &str) -> (r: Result<Vec<(String, String)>, dotenvy::Error>)
    ensures
        r is Ok <==> dotenv_keys(content@) is Some,
        r is Ok ==> keys_of(entries_view(r->Ok_0@)) == dotenv_keys(content@)->Some_0,
        r is Ok ==> all_keys_valid(entries_view(r->Ok_0@)),
        content@.len() == 0 ==> r is Ok && r->Ok_0@.len() == 0,
{
    dotenvy::from_read_iter(content.as_bytes()).collect()
}

/// The parser accepts the source: a file that does not exist is always accepted.
pub open spec fn accepted(source: Option<&str>) -> bool {
    match source {
        None => true,
        Some(content) => dotenv_keys(content@) is Some,
    }
}

/// `entries` is what parsing an accepted source gives: nothing for a file that
/// does not exist or is empty, else entries with exactly the keys the parser finds
/// in the text, in order, each a valid dotenv key.
pub open spec fn parsed_from(source: Option<&str>, entries: Seq<(Seq<char>, Seq<char>)>) -> bool {
    &&& all_keys_valid(entries)
    &&& match source {
        None => entries.len() == 0,
        Some(content) => {
            &&& dotenv_keys(content@) == Some(keys_of(entries))
            &&& content@.len() == 0 ==> entries.len() == 0
        },
    }
}

/// Parses the content of a definition file into its entries, in file order;
/// a later entry of a key replaces an earlier one. `None` stands for a file that
/// does not exist, which contributes nothing and is no error. A malformed file
/// gives the parser's error.
pub fn read_env_file(source: Option<&str>) -> (r: Result<Vec<(String, String)>, dotenvy::Error>)
    ensures
        r is Ok <==> accepted(source),
        r is Err ==> source is Some && source->Some_0@.len() > 0,
        r is Ok ==> parsed_from(source, entries_view(r->Ok_0@)),
{
    match source {
        None => {
            let none: Vec<(String, String)> = Vec::new();
            assert(entries_view(none@) =~= Seq::empty());
            Ok(none)
        },
        Some(content) => parse_dotenv(content),
    }
}

} // verus!
