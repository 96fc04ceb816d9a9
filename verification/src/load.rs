use vstd::prelude::*;

use crate::binary::binary_decode;
use crate::binary::load_binary;
use crate::error::Error;
use crate::model::Model;
use crate::model::Triangle;
use crate::sniff::get_format;
use crate::sniff::sniff;
use crate::sniff::FileFormat;
use crate::text::load_text;
use crate::text::text_decode;

verus! {

/// What loading a whole file yields: the file is classified by its
/// leading bytes and decoded as the classified variant.  The coordinate
/// values stand in for the numeric tokens of the text variant, in scan
/// order; a binary file never consults them.
pub open spec fn load_decode(data: Seq<u8>, coords: Seq<Option<u32>>) -> Result<
    Seq<Triangle>,
    Error,
> {
    match sniff(data) {
        Err(e) => Err(e),
        Ok(FileFormat::Text) => text_decode(data, coords),
        Ok(FileFormat::Binary) => binary_decode(data),
    }
}

/// Decode a whole file, dispatching on the sniffed variant.
pub fn load_bytes(data: &[u8], coords: &Vec<Option<u32>>) -> (r: Result<Model, Error>)
    ensures
        match r {
            Ok(m) => load_decode(data@, coords@) == Ok::<Seq<Triangle>, Error>(m@),
            Err(e) => load_decode(data@, coords@) == Err::<Seq<Triangle>, Error>(e),
        },
{
    match get_format(data) {
        Err(e) => Err(e),
        Ok(FileFormat::Text) => load_text(data, coords),
        Ok(FileFormat::Binary) => load_binary(data),
    }
}

} // verus!
