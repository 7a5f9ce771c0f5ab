//! Reading the network file: a cursor over its bytes, little-endian
//! integers, and the header that gives the network's shape.

use vstd::prelude::*;
use vstd::slice::slice_subrange;
use crate::text::{chars_of, string_of};

verus! {

fn message(s: &str) -> (r: String)
    ensures
        r@ == s@,
{
    string_of(&chars_of(s))
}

/// The value of four bytes read little-endian.
pub open spec fn le_u32(b: Seq<u8>) -> int {
    b[0] + 256 * b[1] + 65536 * b[2] + 16777216 * b[3]
}

/// A read position in the bytes of a file.
pub struct Cursor<'a> {
    pub data: &'a [u8],
    pub pos: usize,
}

impl<'a> Cursor<'a> {
    pub fn new(data: &'a [u8]) -> (c: Cursor<'a>)
        ensures
            c.data@ == data@,
            c.pos == 0,
    {
        Cursor { data, pos: 0 }
    }

    /// The next `n` bytes, or an error when the file ends before them.
    pub fn bytes(&mut self, n: usize) -> (r: Result<&'a [u8], String>)
        requires
            old(self).pos + n <= usize::MAX,
        ensures
            final(self).data@ == old(self).data@,
            old(self).pos + n <= old(self).data@.len() ==> {
                &&& r matches Ok(s) && s@ == old(self).data@.subrange(
                    old(self).pos as int,
                    old(self).pos + n,
                )
                &&& final(self).pos == old(self).pos + n
            },
            old(self).pos + n > old(self).data@.len() ==> {
                &&& r matches Err(e) && e@ == "model file truncated"@
                &&& final(self).pos == old(self).pos
            },
    {
        let end = self.pos + n;
        if end > self.data.len() {
            return Err(message("model file truncated"));
        }
        let s = slice_subrange(self.data, self.pos, end);
        self.pos = end;
        Ok(s)
    }

    /// The next four bytes as a little-endian `u32`.
    pub fn u32(&mut self) -> (r: Result<u32, String>)
        requires
            old(self).pos + 4 <= usize::MAX,
        ensures
            final(self).data@ == old(self).data@,
            old(self).pos + 4 <= old(self).data@.len() ==> {
                &&& r matches Ok(v) && v == le_u32(
                    old(self).data@.subrange(old(self).pos as int, old(self).pos + 4),
                )
                &&& final(self).pos == old(self).pos + 4
            },
            old(self).pos + 4 > old(self).data@.len() ==> {
                &&& r matches Err(e) && e@ == "model file truncated"@
                &&& final(self).pos == old(self).pos
            },
    {
        let b = match self.bytes(4) {
            Ok(b) => b,
            Err(e) => return Err(e),
        };
        let v: u32 = b[0] as u32 + 256 * (b[1] as u32) + 65536 * (b[2] as u32) + 16777216 * (
        b[3] as u32);
        Ok(v)
    }
}

/// The shape of a network, from the file's header.
#[derive(Clone, Copy, PartialEq, Eq, Debug, Structural)]
pub struct ModelHeader {
    pub channels: usize,
    pub blocks: usize,
    pub policy_channels: usize,
    pub value_channels: usize,
    pub value_hidden: usize,
}

/// The file starts with the magic bytes `CYW1`.
pub open spec fn magic_ok(b: Seq<u8>) -> bool {
    b.len() >= 4 && b[0] == 67 && b[1] == 89 && b[2] == 87 && b[3] == 49
}

/// The header of a network file: the magic bytes, then five little-endian
/// `u32` fields (channels, residual blocks, policy channels, value
/// channels, value hidden units).
pub open spec fn header_of(b: Seq<u8>) -> Option<ModelHeader> {
    if b.len() < 24 || !magic_ok(b) {
        None
    } else {
        Some(
            ModelHeader {
                channels: le_u32(b.subrange(4, 8)) as usize,
                blocks: le_u32(b.subrange(8, 12)) as usize,
                policy_channels: le_u32(b.subrange(12, 16)) as usize,
                value_channels: le_u32(b.subrange(16, 20)) as usize,
                value_hidden: le_u32(b.subrange(20, 24)) as usize,
            },
        )
    }
}

/// Reads the header and leaves the cursor on the first weight. A file
/// without the magic bytes is refused as not a network file; a short one
/// as truncated.
pub fn read_header(cur: &mut Cursor) -> (r: Result<ModelHeader, String>)
    requires
        old(cur).pos == 0,
        old(cur).data@.len() < 0x1_0000_0000,
    ensures
        final(cur).data@ == old(cur).data@,
        match r {
            Ok(h) => Some(h) == header_of(old(cur).data@) && final(cur).pos == 24,
            Err(e) => {
                &&& header_of(old(cur).data@) is None
                &&& e@ == (if old(cur).data@.len() >= 4 && !magic_ok(old(cur).data@) {
                    "bad magic: not a .cyw file"@
                } else {
                    "model file truncated"@
                })
            },
        },
{
    let ghost d = cur.data@;
    let magic = match cur.bytes(4) {
        Ok(b) => b,
        Err(e) => return Err(e),
    };
    if !(magic[0] == 67 && magic[1] == 89 && magic[2] == 87 && magic[3] == 49) {
        return Err(message("bad magic: not a .cyw file"));
    }
    assert(magic_ok(d));
    let channels = match cur.u32() {
        Ok(v) => v,
        Err(e) => return Err(e),
    };
    let blocks = match cur.u32() {
        Ok(v) => v,
        Err(e) => return Err(e),
    };
    let policy_channels = match cur.u32() {
        Ok(v) => v,
        Err(e) => return Err(e),
    };
    let value_channels = match cur.u32() {
        Ok(v) => v,
        Err(e) => return Err(e),
    };
    let value_hidden = match cur.u32() {
        Ok(v) => v,
        Err(e) => return Err(e),
    };
    assert(d.subrange(4, 8) =~= d.subrange(4, 8));
    Ok(
        ModelHeader {
            channels: channels as usize,
            blocks: blocks as usize,
            policy_channels: policy_channels as usize,
            value_channels: value_channels as usize,
            value_hidden: value_hidden as usize,
        },
    )
}

} // verus!
