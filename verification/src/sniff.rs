use vstd::prelude::*;

use crate::error::Error;
use crate::utf8::check_utf8_range;
use crate::utf8::is_utf8;

verus! {

/// The two grammars an STL file can follow.
#[derive(Clone, Copy, Debug, PartialEq, Eq, Structural)]
pub enum FileFormat {
    Text,
    Binary,
}

/// The number of leading bytes the sniffer inspects: the conventional
/// header length of the binary variant.
pub const PROBE_LEN: usize = 80;

/// Whether `b` is an ASCII whitespace byte: space, tab, line feed,
/// vertical tab, form feed or carriage return.
pub open spec fn is_ascii_ws(b: u8) -> bool {
    b == 0x20 || b == 0x09 || b == 0x0A || b == 0x0B || b == 0x0C || b == 0x0D
}

/// `s` with its leading ASCII whitespace removed.
pub open spec fn trim_start(s: Seq<u8>) -> Seq<u8>
    decreases s.len(),
{
    if s.len() > 0 && is_ascii_ws(s[0]) {
        trim_start(s.skip(1))
    } else {
        s
    }
}

/// `b` with an ASCII capital letter folded to its small form.
pub open spec fn fold_lower(b: u8) -> u8 {
    if 0x41 <= b <= 0x5A {
        (b + 0x20) as u8
    } else {
        b
    }
}

/// Whether `s`, after leading ASCII whitespace, begins with the keyword
/// `solid` in any mixture of letter case.
pub open spec fn starts_with_solid(s: Seq<u8>) -> bool {
    let t = trim_start(s);
    t.len() >= 5 && fold_lower(t[0]) == 0x73 && fold_lower(t[1]) == 0x6F && fold_lower(t[2])
        == 0x6C && fold_lower(t[3]) == 0x69 && fold_lower(t[4]) == 0x64
}

/// How a file's leading bytes classify it.  A probe shorter than the
/// header length is a short read; a probe that is not UTF-8 cannot be
/// inspected as text and is a format fault; otherwise the keyword
/// `solid` (case-insensitive, after leading whitespace) marks the text
/// variant and anything else the binary one.  A binary file whose header
/// happens to begin with those five letters is classified as text all
/// the same: that false positive is inherent to the format and no
/// sniffer can resolve it.
pub open spec fn sniff(data: Seq<u8>) -> Result<FileFormat, Error> {
    if data.len() < PROBE_LEN {
        Err(Error::ReadError)
    } else if !is_utf8(data.take(PROBE_LEN as int)) {
        Err(Error::FormatError)
    } else if starts_with_solid(data.take(PROBE_LEN as int)) {
        Ok(FileFormat::Text)
    } else {
        Ok(FileFormat::Binary)
    }
}

/// Classify a file by its leading bytes as text or binary.
pub fn get_format(data: &[u8]) -> (r: Result<FileFormat, Error>)
    ensures
        r == sniff(data@),
{
    if data.len() < PROBE_LEN {
        return Err(Error::ReadError);
    }
    let ghost probe = data@.take(PROBE_LEN as int);
    proof {
        assert(probe =~= data@.subrange(0, PROBE_LEN as int));
    }
    if !check_utf8_range(data, 0, PROBE_LEN) {
        return Err(Error::FormatError);
    }
    let mut i: usize = 0;
    proof {
        assert(probe.skip(0) =~= probe);
    }
    while i < PROBE_LEN && is_ws_byte(data[i])
        invariant
            i <= PROBE_LEN <= data@.len(),
            probe == data@.take(PROBE_LEN as int),
            trim_start(probe) == trim_start(probe.skip(i as int)),
        decreases PROBE_LEN - i,
    {
        proof {
            assert(probe.skip(i as int).skip(1) =~= probe.skip(i as int + 1));
            assert(trim_start(probe.skip(i as int)) == trim_start(probe.skip(i as int + 1)));
        }
        i = i + 1;
    }
    proof {
        if i < PROBE_LEN {
            assert(trim_start(probe.skip(i as int)) == probe.skip(i as int));
        } else {
            assert(probe.skip(i as int) =~= Seq::<u8>::empty());
            assert(trim_start(probe) =~= Seq::<u8>::empty());
        }
    }
    if PROBE_LEN - i < 5 {
        return Ok(FileFormat::Binary);
    }
    let m = lower_byte(data[i]) == 0x73 && lower_byte(data[i + 1]) == 0x6F && lower_byte(
        data[i + 2],
    ) == 0x6C && lower_byte(data[i + 3]) == 0x69 && lower_byte(data[i + 4]) == 0x64;
    proof {
        assert(trim_start(probe) == probe.skip(i as int));
        assert(forall|j: int| 0 <= j < PROBE_LEN - i ==> probe.skip(i as int)[j] == data@[i + j]);
    }
    if m {
        Ok(FileFormat::Text)
    } else {
        Ok(FileFormat::Binary)
    }
}

/// Decide whether `b` is an ASCII whitespace byte.
pub(crate) fn is_ws_byte(b: u8) -> (r: bool)
    ensures
        r == is_ascii_ws(b),
{
    b == 0x20 || b == 0x09 || b == 0x0A || b == 0x0B || b == 0x0C || b == 0x0D
}

/// Fold an ASCII capital letter to its small form.
fn lower_byte(b: u8) -> (r: u8)
    ensures
        r == fold_lower(b),
{
    if 0x41 <= b && b <= 0x5A {
        b + 0x20
    } else {
        b
    }
}

} // verus!
