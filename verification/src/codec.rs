//! Text decoding of the archive's files, through the encoding tables.

use vstd::prelude::*;

use crate::types::TextEncoding;

verus! {

/// The character content a byte sequence decodes to under the
/// encoding with the given table number; the result depends on the
/// bytes and the table alone.
pub uninterp spec fn decoded_text(data: Seq<u8>, table: int) -> Seq<char>;

impl TextEncoding {
    /// The number of the decoding table, for the decode contract.
    pub open spec fn table(self) -> int {
        match self {
            TextEncoding::Latin9 => 0,
            TextEncoding::Iso8859_2 => 1,
            TextEncoding::Iso8859_3 => 2,
            TextEncoding::Iso8859_4 => 3,
            TextEncoding::Iso8859_5 => 4,
            TextEncoding::Iso8859_6 => 5,
            TextEncoding::Iso8859_7 => 6,
            TextEncoding::Iso8859_8 => 7,
            TextEncoding::Windows1254 => 8,
        }
    }
}

/// Relies on encoding_rs's Encoding::decode for the Latin encoding
/// family: the result is a function of the bytes and the chosen
/// encoding; these encodings extend ASCII, so all-ASCII input decodes
/// to itself; empty input decodes to nothing.
#[verifier::external_body]
pub fn decode_text(data: &Vec<u8>, enc: TextEncoding) -> (r: String)
    ensures
        r@ == decoded_text(data@, enc.table()),
        data@.len() == 0 ==> r@.len() == 0,
        (forall|i: int| 0 <= i < data@.len() ==> data@[i] < 128) ==> r@ == crate::bytes::lossy_chars(
            data@,
        ),
{
    // The 8859-9 label maps to windows-1254, its WHATWG superset: the
    // two tables agree everywhere but in the 0x80-0x9F control range,
    // which the source format never emits.
    let encoding = match enc {
        TextEncoding::Latin9 => encoding_rs::ISO_8859_15,
        TextEncoding::Iso8859_2 => encoding_rs::ISO_8859_2,
        TextEncoding::Iso8859_3 => encoding_rs::ISO_8859_3,
        TextEncoding::Iso8859_4 => encoding_rs::ISO_8859_4,
        TextEncoding::Iso8859_5 => encoding_rs::ISO_8859_5,
        TextEncoding::Iso8859_6 => encoding_rs::ISO_8859_6,
        TextEncoding::Iso8859_7 => encoding_rs::ISO_8859_7,
        TextEncoding::Iso8859_8 => encoding_rs::ISO_8859_8,
        TextEncoding::Windows1254 => encoding_rs::WINDOWS_1254,
    };
    let (decoded, _, _) = encoding.decode(data.as_slice());
    decoded.into_owned()
}

} // verus!
