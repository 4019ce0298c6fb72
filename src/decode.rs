//! Decoding of Windows-1252 byte fields.
use vstd::prelude::*;

verus! {

/// The text that the Windows-1252 decoder gives for a byte field.
pub uninterp spec fn windows_1252_text(bytes: Seq<u8>) -> Seq<char>;

/// The decoded texts of the fields of a row.
pub open spec fn decoded_row(record: Seq<Vec<u8>>) -> Seq<Seq<char>> {
    record.map_values(|f: Vec<u8>| windows_1252_text(f@))
}

/// Relies on `encoding_rs::Encoding::decode` of `encoding_rs::WINDOWS_1252`:
/// the decoded text of a complete buffer, with bytes that cannot be decoded
/// replaced, which depends on the bytes alone.
#[verifier::external_body]
fn decode_field(bytes: &[u8]) -> (r: String)
    ensures
        r@ == windows_1252_text(bytes@),
{
    encoding_rs::WINDOWS_1252.decode(bytes).0.into_owned()
}

/// Decodes every field of a row on its own, keeping their number and order.
pub fn recoder(record: &Vec<Vec<u8>>) -> (r: Vec<String>)
    ensures
        r@.len() == record@.len(),
        forall|i: int| 0 <= i < r@.len() ==> #[trigger] r@[i]@ == windows_1252_text(record@[i]@),
        crate::text::texts(r@) == decoded_row(record@),
{
    let mut r: Vec<String> = Vec::new();
    let mut i: usize = 0;
    while i < record.len()
        invariant
            i <= record@.len(),
            r@.len() == i,
            forall|j: int| 0 <= j < i ==> #[trigger] r@[j]@ == windows_1252_text(record@[j]@),
        decreases record@.len() - i,
    {
        let field = decode_field(record[i].as_slice());
        r.push(field);
        i = i + 1;
    }
    assert(crate::text::texts(r@) =~= decoded_row(record@));
    r
}

} // verus!
