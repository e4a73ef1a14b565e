use vstd::prelude::*;

use crate::error::Error;

verus! {

#[verifier::external_type_specification]
#[verifier::external_body]
pub struct ExSerdeValue(serde_json::Value);

/// Whether a text is a well-formed encoding of a structured value:
/// whether the decoder the driver side uses accepts it. A function of
/// the text alone.
pub uninterp spec fn json_parses(s: Seq<char>) -> bool;

/// The value that the decoder yields for a well-formed text. A
/// function of the text alone.
pub uninterp spec fn parsed_value_of(s: Seq<char>) -> serde_json::Value;

/// The text that the encoder emits for a value. A function of the
/// value alone.
pub uninterp spec fn json_text_of(v: serde_json::Value) -> Seq<char>;

/// Relies on serde_json::from_str::<serde_json::Value>: whether it
/// returns Ok, and which value it then yields, depend on the text
/// alone. A value it yields is nested no deeper than the decoder's own
/// recursion limit, so re-encoding that value gives text the decoder
/// accepts again.
#[verifier::external_body]
fn parse_value(s: &str) -> (r: Result<serde_json::Value, String>)
    ensures
        r is Ok <==> json_parses(s@),
        r matches Ok(v) ==> v == parsed_value_of(s@),
        r matches Ok(v) ==> json_parses(json_text_of(v)),
{
    match serde_json::from_str::<serde_json::Value>(s) {
        Ok(v) => Ok(v),
        Err(e) => Err(format!("{}", e)),
    }
}

/// Relies on serde_json::to_string: on these values it cannot fail
/// (every object key is a string, and writing to an in-memory buffer
/// cannot fail); its text depends on the value alone; and whenever
/// that text is accepted by the decoder, it decodes back to the very
/// value encoded. The last clause leans on the crate's
/// `float_roundtrip` feature, enabled here: the encoder emits each
/// float in shortest form and the decoder then parses it with full
/// precision, so the float comes back bit for bit. The decoder
/// refuses the text of a value nested deeper than its recursion
/// limit, so acceptance is not promised unconditionally.
#[verifier::external_body]
fn encode_value(v: &serde_json::Value) -> (r: Result<String, String>)
    ensures
        r is Ok,
        r matches Ok(s) ==> s@ == json_text_of(*v),
        r matches Ok(s) ==> (json_parses(s@) ==> parsed_value_of(s@) == *v),
{
    match serde_json::to_string(v) {
        Ok(s) => Ok(s),
        Err(e) => Err(format!("{}", e)),
    }
}

/// Decodes the parameter text of an RPC call into exactly the value
/// the decoder assigns to that text, to be handed to the driver's
/// dispatcher unchanged; malformed text is refused with `ParamsDecode`
/// carrying the decoder's message.
pub fn rpc_params_decode(params: &str) -> (r: Result<serde_json::Value, Error>)
    ensures
        r is Ok <==> json_parses(params@),
        r matches Ok(v) ==> v == parsed_value_of(params@),
        r matches Ok(v) ==> json_parses(json_text_of(v)),
        r is Err ==> r matches Err(Error::ParamsDecode(_)),
{
    match parse_value(params) {
        Ok(v) => Ok(v),
        Err(m) => Err(Error::ParamsDecode(m)),
    }
}

/// Re-encodes the value an RPC call returned as exactly the text the
/// encoder assigns to it. Encoding a structured value cannot fail, and
/// whenever the emitted text is well formed it decodes back to the
/// value the driver produced.
pub fn rpc_result_encode(v: &serde_json::Value) -> (r: Result<String, Error>)
    ensures
        r matches Ok(s) && s@ == json_text_of(*v),
        r matches Ok(s) ==> (json_parses(s@) ==> parsed_value_of(s@) == *v),
{
    match encode_value(v) {
        Ok(s) => Ok(s),
        Err(m) => Err(Error::ResultEncode(m)),
    }
}

} // verus!
