//! Turning a `.replay` file's bytes into the JSON text that is cached and
//! analysed: boxcars parses the replay (network data included), and the
//! parse is written out as pretty JSON.

use vstd::prelude::*;

verus! {

#[verifier::external_type_specification]
#[verifier::external_body]
pub struct ExParseError(boxcars::ParseError);

#[verifier::external_type_specification]
#[verifier::external_body]
pub struct ExJsonError(serde_json::Error);

/// Whether boxcars parses `data` as a replay, network data included.
pub uninterp spec fn boxcars_parses(data: Seq<u8>) -> bool;

/// The pretty JSON text (`serde_json::to_string_pretty`) of boxcars' parse
/// of `data`, network data included.
pub uninterp spec fn replay_json_of(data: Seq<u8>) -> Seq<char>;

/// Why replay bytes could not be turned into cache text.
#[derive(Debug)]
pub enum ReplayTextError {
    /// boxcars rejected the bytes.
    Parse(boxcars::ParseError),
    /// The parsed replay could not be written as JSON.
    Serialize(serde_json::Error),
}

/// Parses replay bytes with `boxcars::ParserBuilder`, requiring the network
/// data (`must_parse_network_data`), and writes the parse out with
/// `serde_json::to_string_pretty`. Claimed: the parse fails exactly when
/// `boxcars_parses` does not hold of the bytes; otherwise the text comes
/// back and is `replay_json_of` the bytes (both steps depend on the bytes
/// alone). Serialization does not fail on a parsed replay: boxcars'
/// `Replay` writes its maps with string keys, serde_json writes
/// non-finite floats as `null`, and the text goes into memory.
#[verifier::external_body]
fn parse_to_json_text(data: &[u8]) -> (res: Result<String, ReplayTextError>)
    ensures
        res matches Err(ReplayTextError::Parse(_)) <==> !boxcars_parses(data@),
        boxcars_parses(data@) ==> res is Ok,
        res matches Ok(t) ==> t@ == replay_json_of(data@),
{
    let replay = boxcars::ParserBuilder::new(data)
        .must_parse_network_data()
        .parse()
        .map_err(ReplayTextError::Parse)?;
    serde_json::to_string_pretty(&replay).map_err(ReplayTextError::Serialize)
}

/// The text cached for a replay: its boxcars parse as pretty JSON. Fails
/// with `Parse` exactly when boxcars rejects the bytes; otherwise the text
/// of the parse.
pub fn parsed_replay_text(data: &[u8]) -> (res: Result<String, ReplayTextError>)
    ensures
        res matches Err(ReplayTextError::Parse(_)) <==> !boxcars_parses(data@),
        boxcars_parses(data@) ==> (res matches Ok(t) && t@ == replay_json_of(data@)),
{
    parse_to_json_text(data)
}

} // verus!
