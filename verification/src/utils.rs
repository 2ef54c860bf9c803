//! Byte helpers shared by the configuration reader and the module search.
use vstd::prelude::*;
use vstd::utf8::*;

verus! {

/// The bytes of a C character buffer, each reinterpreted as unsigned.
pub open spec fn unsigned_bytes(data: Seq<i8>) -> Seq<u8> {
    data.map_values(|b: i8| b as u8)
}

/// Reinterprets a buffer of C characters as bytes, element by element.
pub fn realign_unchecked(data: &[i8]) -> (bytes: Vec<u8>)
    ensures
        bytes@ == unsigned_bytes(data@),
{
    let mut bytes: Vec<u8> = Vec::new();
    let mut i: usize = 0;
    while i < data.len()
        invariant
            i <= data@.len(),
            bytes@ == unsigned_bytes(data@).take(i as int),
        decreases data@.len() - i,
    {
        bytes.push(data[i] as u8);
        i = i + 1;
        assert(bytes@ =~= unsigned_bytes(data@).take(i as int));
    }
    assert(bytes@ =~= unsigned_bytes(data@));
    bytes
}

/// Calls `std::str::from_utf8` and copies the string out. Its documentation
/// says that it fails exactly when the bytes are not valid UTF-8, and that on
/// success the string slice has these very bytes.
#[verifier::external_body]
fn from_utf8_owned(bytes: &[u8]) -> (res: Option<String>)
    ensures
        res is Some <==> valid_utf8(bytes@),
        res matches Some(s) ==> encode_utf8(s@) == bytes@,
{
    std::str::from_utf8(bytes).ok().map(|s| s.to_string())
}

/// The text that `bytes` encode in UTF-8, or `None` where they do not.
pub fn decode_text(bytes: &[u8]) -> (res: Option<String>)
    ensures
        res is Some <==> valid_utf8(bytes@),
        res matches Some(s) ==> s@ == decode_utf8(bytes@),
{
    let res = from_utf8_owned(bytes);
    proof {
        if res is Some {
            encode_utf8_decode_utf8(res.unwrap()@);
        }
    }
    res
}

} // verus!
