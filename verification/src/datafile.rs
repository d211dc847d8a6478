//! What reads and writes at an offset do to the bytes of a file.

use vstd::prelude::*;

verus! {

/// A file's bytes after `data` is written at `offset`. A gap past the old end reads as zeros;
/// writing nothing leaves the file as it is.
pub open spec fn written_at(content: Seq<u8>, offset: int, data: Seq<u8>) -> Seq<u8> {
    if data.len() == 0 {
        content
    } else {
        let end = offset + data.len();
        Seq::new(
            (if end > content.len() {
                end
            } else {
                content.len() as int
            }) as nat,
            |i: int|
                if offset <= i < end {
                    data[i - offset]
                } else if i < content.len() {
                    content[i]
                } else {
                    0u8
                },
        )
    }
}

/// A file's bytes after its length is set to `len`: cut off, or filled up with zeros.
pub open spec fn resized(content: Seq<u8>, len: int) -> Seq<u8> {
    Seq::new(
        len as nat,
        |i: int|
            if i < content.len() {
                content[i]
            } else {
                0u8
            },
    )
}

/// The bytes of a file from `offset`, `len` of them or as many as there are.
pub open spec fn read_from(content: Seq<u8>, offset: int, len: int) -> Seq<u8> {
    if offset >= content.len() {
        Seq::empty()
    } else if offset + len > content.len() {
        content.subrange(offset, content.len() as int)
    } else {
        content.subrange(offset, offset + len)
    }
}

/// What was written reads back.
pub proof fn write_reads_back(content: Seq<u8>, offset: int, data: Seq<u8>)
    requires
        0 <= offset,
    ensures
        read_from(written_at(content, offset, data), offset, data.len() as int) == data,
{
    assert(read_from(written_at(content, offset, data), offset, data.len() as int) =~= data);
}

} // verus!
