//! The top-level box walk that decides whether a recorded M4A file holds
//! encoded audio before it is uploaded.
use vstd::prelude::*;

use crate::error::{AppError, AppResult};

verus! {

/// Big-endian 32-bit value at `i`.
pub open spec fn be32(b: Seq<u8>, i: int) -> int {
    b[i] as int * 16777216 + b[i + 1] as int * 65536 + b[i + 2] as int * 256 + b[i + 3] as int
}

/// Big-endian 64-bit value at `i`.
pub open spec fn be64(b: Seq<u8>, i: int) -> int {
    be32(b, i) * 0x1_0000_0000 + be32(b, i + 4)
}

pub open spec fn is_mdat(b: Seq<u8>, i: int) -> bool {
    b[i] == 0x6du8 && b[i + 1] == 0x64u8 && b[i + 2] == 0x61u8 && b[i + 3] == 0x74u8
}

/// The walk over the boxes from offset `pos`: `Ok(true)` once a media-data
/// box with content is found, `Ok(false)` at a clean end, `Err` for a box
/// that is cut short or declares an impossible size.
pub open spec fn scan(b: Seq<u8>, pos: int) -> Result<bool, ()>
    decreases b.len() - pos,
{
    if pos < 0 || pos >= b.len() {
        Ok(false)
    } else if b.len() - pos < 8 {
        Err(())
    } else {
        let declared = be32(b, pos);
        if declared == 1 && b.len() - pos < 16 {
            Err(())
        } else {
            let size = if declared == 0 {
                b.len() - pos
            } else if declared == 1 {
                be64(b, pos + 8)
            } else {
                declared
            };
            let header = if declared == 1 {
                16int
            } else {
                8int
            };
            if size < header || size > b.len() - pos {
                Err(())
            } else if is_mdat(b, pos + 4) && size > header {
                Ok(true)
            } else {
                scan(b, pos + size)
            }
        }
    }
}

/// Whether a recording holds encoded audio; an empty file is incomplete.
pub open spec fn has_media(b: Seq<u8>) -> Result<bool, ()> {
    if b.len() == 0 {
        Err(())
    } else {
        scan(b, 0)
    }
}

pub open spec fn incomplete_message() -> Seq<char> {
    "Recorded audio is incomplete. Your audio was kept so you can retry."@
}

/// The error for a recording whose container is cut short.
pub fn incomplete_audio() -> (e: AppError)
    ensures
        e.code@ == "audio_file"@,
        e.message@ == incomplete_message(),
{
    AppError::new("audio_file", "Recorded audio is incomplete. Your audio was kept so you can retry.")
}

fn read_be32(b: &[u8], i: usize) -> (v: u64)
    requires
        i + 4 <= b@.len(),
    ensures
        v == be32(b@, i as int),
{
    (b[i] as u64) * 16777216 + (b[i + 1] as u64) * 65536 + (b[i + 2] as u64) * 256 + b[i
        + 3] as u64
}

/// Whether a recorded M4A holds an `mdat` box with content. A file with only
/// headers (silence that produced no frames) is `Ok(false)`; a truncated file
/// is an error, so it is never mistaken for silence.
pub fn has_m4a_media(b: &[u8]) -> (r: AppResult<bool>)
    ensures
        r matches Ok(found) ==> has_media(b@) == Ok::<bool, ()>(found),
        r is Err ==> has_media(b@) is Err,
        r matches Err(e) ==> e.code@ == "audio_file"@ && e.message@ == incomplete_message(),
{
    let len: usize = b.len();
    if len == 0 {
        return Err(incomplete_audio());
    }
    let mut pos: usize = 0;
    while pos < len
        invariant
            len == b@.len(),
            0 <= pos <= len,
            scan(b@, 0) == scan(b@, pos as int),
        decreases len - pos,
    {
        let rest: usize = len - pos;
        if rest < 8 {
            return Err(incomplete_audio());
        }
        let declared: u64 = read_be32(b, pos);
        if declared == 1 && rest < 16 {
            return Err(incomplete_audio());
        }
        let header: u64 = if declared == 1 {
            16
        } else {
            8
        };
        let size: u64;
        if declared == 0 {
            size = rest as u64;
        } else if declared == 1 {
            let high: u64 = read_be32(b, pos + 8);
            let low: u64 = read_be32(b, pos + 12);
            proof {
                assert(high * 0x1_0000_0000 + low <= 0xffff_ffff_ffff_ffff) by (nonlinear_arith)
                    requires
                        high <= 0xffff_ffff,
                        low <= 0xffff_ffff,
                ;
            }
            size = high * 0x1_0000_0000 + low;
        } else {
            size = declared;
        }
        if size < header || size > rest as u64 {
            return Err(incomplete_audio());
        }
        if b[pos + 4] == 0x6d && b[pos + 5] == 0x64 && b[pos + 6] == 0x61 && b[pos + 7] == 0x74
            && size > header {
            return Ok(true);
        }
        pos = pos + size as usize;
    }
    Ok(false)
}

} // verus!
