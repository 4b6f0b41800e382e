//! The canonical text of a payload, from which identifiers are derived.

use vstd::prelude::*;
use vstd::string::StrSliceExecFns;
use vstd::string::StringSliceAdditionalSpecFns;

verus! {

/// The error of `serde_json`, carried through as it is.
#[verifier::external_type_specification]
#[verifier::external_body]
pub struct ExJsonError(serde_json::Error);

/// The JSON text of a string as `serde_json` writes it, quotes and escapes
/// included, in UTF-8; `None` where it reports an error.
pub uninterp spec fn json_text(s: Seq<char>) -> Option<Seq<u8>>;

/// Calls `serde_json::to_vec` on a string. What it returns depends on the
/// characters of the string alone.
#[verifier::external_body]
pub(crate) fn json_string(s: &String) -> (out: Result<Vec<u8>, serde_json::Error>)
    ensures
        match out {
            Ok(v) => json_text(s@) == Some(v@),
            Err(_) => json_text(s@) is None,
        },
{
    serde_json::to_vec(s)
}

/// The decimal digits of a number, as ASCII, without leading zeros.
pub open spec fn decimal_text(n: nat) -> Seq<u8>
    decreases n,
{
    if n < 10 {
        seq![(48 + n) as u8]
    } else {
        decimal_text(n / 10).push((48 + n % 10) as u8)
    }
}

/// Writes a number in decimal digits.
pub fn decimal(n: u64) -> (out: Vec<u8>)
    ensures
        out@ == decimal_text(n as nat),
    decreases n,
{
    if n < 10 {
        let mut out: Vec<u8> = Vec::new();
        out.push(48 + (n as u8));
        assert(out@ =~= decimal_text(n as nat));
        out
    } else {
        let mut out = decimal(n / 10);
        out.push(48 + ((n % 10) as u8));
        out
    }
}

/// The canonical JSON object of a request to create an asset: its fields in
/// declared order, without white space.
pub open spec fn create_asset_json(name: Seq<char>, symbol: Seq<char>, supply: u64) -> Option<Seq<u8>> {
    match (json_text(name), json_text(symbol)) {
        (Some(n), Some(s)) => Some(
            "{\"name\":".spec_bytes() + n + ",\"symbol\":".spec_bytes() + s + ",\"supply\":".spec_bytes()
                + decimal_text(supply as nat) + "}".spec_bytes(),
        ),
        _ => None,
    }
}

/// Appends `part` to `text`.
pub fn append_bytes(text: &mut Vec<u8>, part: &Vec<u8>)
    ensures
        final(text)@ == old(text)@ + part@,
{
    let mut i: usize = 0;
    while i < part.len()
        invariant
            0 <= i <= part.len(),
            text@ == old(text)@ + part@.take(i as int),
        decreases part.len() - i,
    {
        text.push(part[i]);
        assert(part@.take(i + 1) =~= part@.take(i as int).push(part@[i as int]));
        assert(text@ =~= old(text)@ + part@.take(i + 1));
        i = i + 1;
    }
    assert(part@.take(part.len() as int) =~= part@);
}

/// Writes the canonical JSON object of a request to create an asset, given
/// the JSON text of its two strings.
pub fn write_create_asset_json(name_json: &Vec<u8>, symbol_json: &Vec<u8>, supply: u64) -> (out: Vec<u8>)
    ensures
        out@ == "{\"name\":".spec_bytes() + name_json@ + ",\"symbol\":".spec_bytes() + symbol_json@
            + ",\"supply\":".spec_bytes() + decimal_text(supply as nat) + "}".spec_bytes(),
{
    let mut out = "{\"name\":".as_bytes_vec();
    append_bytes(&mut out, name_json);
    let symbol_key = ",\"symbol\":".as_bytes_vec();
    append_bytes(&mut out, &symbol_key);
    append_bytes(&mut out, symbol_json);
    let supply_key = ",\"supply\":".as_bytes_vec();
    append_bytes(&mut out, &supply_key);
    let digits = decimal(supply);
    append_bytes(&mut out, &digits);
    let close = "}".as_bytes_vec();
    append_bytes(&mut out, &close);
    out
}

} // verus!
