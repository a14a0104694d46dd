//! Decoding of frames: the header and the data block.

use crate::network::data_container::{Container, Data, DataView, EntryView};
use crate::protocol::byte_order::{
    bits_to_i32, i32_from_bits, read_u16_be, read_u32_be, read_u64_be, u16_from_be, u32_from_be,
    u64_from_be,
};
use crate::protocol::commands::{AdaCommandHeader, AdaCommandType, HeaderView, COMMON_HEADER_SIZE};
use crate::protocol::text::{text_from_utf8, text_from_utf8_lossy, text_of};
use uuid::Uuid;
use vstd::prelude::*;
use vstd::slice::slice_subrange;
use vstd::utf8::{decode_utf8, valid_utf8};

verus! {

/// What thirty-eight bytes say as a header: the fields stand one after the
/// other, the network identifier before the node identifier.
pub open spec fn header_of(bytes: Seq<u8>) -> HeaderView
    recommends
        bytes.len() == 38,
{
    HeaderView {
        version: bytes[0],
        content_length: u32_from_be(bytes.subrange(1, 5)),
        command_type: AdaCommandType::of_tag(bytes[5]),
        network: bytes.subrange(6, 22),
        node: bytes.subrange(22, 38),
    }
}

/// Reads a header. The buffer must hold exactly the thirty-eight bytes of a
/// header; any other length gives `None`. Both identifiers of the result are
/// present, an absent one as the nil identifier.
pub fn parse_header(buffer: &[u8]) -> (r: Option<AdaCommandHeader>)
    ensures
        r is Some <==> buffer@.len() == 38,
        r matches Some(header) ==> header@ == header_of(buffer@) && header.network is Some
            && header.node is Some,
{
    if buffer.len() != COMMON_HEADER_SIZE as usize {
        return None;
    }
    let version: u8 = buffer[0];
    let content_length: u32 = read_u32_be(buffer, 1);
    let command_type = match AdaCommandType::try_from(buffer[5]) {
        Ok(t) => t,
        Err(_) => {
            return None;
        },
    };
    let network_id = match Uuid::from_slice(slice_subrange(buffer, 6, 22)) {
        Ok(id) => id,
        Err(_) => {
            return None;
        },
    };
    let node_id = match Uuid::from_slice(slice_subrange(buffer, 22, 38)) {
        Ok(id) => id,
        Err(_) => {
            return None;
        },
    };
    Some(
        AdaCommandHeader {
            version,
            content_length,
            command_type,
            network: Some(network_id),
            node: Some(node_id),
        },
    )
}

/// The key that a block of bytes spells: its text where it is well-formed
/// UTF-8, a fixed stand-in where it is not.
pub open spec fn key_text(bytes: Seq<u8>) -> Seq<char> {
    if valid_utf8(bytes) {
        decode_utf8(bytes)
    } else {
        "unknown"@
    }
}

/// Where the first zero byte at or after `from` stands; the length of the
/// block where there is none.
pub open spec fn first_nul(block: Seq<u8>, from: int) -> int
    decreases block.len() - from,
{
    if from < 0 || from >= block.len() {
        block.len() as int
    } else if block[from] == 0 {
        from
    } else {
        first_nul(block, from + 1)
    }
}

/// What reading one entry gives: the entry, unless its tag names no kind of
/// value, and the place where the next entry starts.
pub ghost struct EntryRead {
    pub entry: Option<EntryView>,
    pub next: int,
}

/// Reads the entry that starts at `at` of a data block: two bytes of key
/// length, the key, a tag and the value. `block` is the declared block and
/// nothing else, so its end is the declared end: `None` where the key
/// length, the key, the tag or a value of fixed width would end behind it.
///
/// After the key at least two bytes must follow. A text runs up to the next
/// zero byte, which is passed over, or, where there is none, to the end of
/// the block. A tag that names no kind of value ends the entry right after
/// the tag.
pub open spec fn parse_entry(block: Seq<u8>, at: int) -> Option<EntryRead> {
    let key_at = at + 2;
    if at < 0 || key_at > block.len() {
        None
    } else {
        let key_len = u16_from_be(block.subrange(at, key_at)) as int;
        let tag_at = key_at + key_len;
        let value_at = tag_at + 1;
        if value_at + 1 > block.len() {
            None
        } else {
            let key = key_text(block.subrange(key_at, tag_at));
            let tag = block[tag_at];
            if tag == 1 {
                if value_at + 4 > block.len() {
                    None
                } else {
                    let bits = u32_from_be(block.subrange(value_at, value_at + 4));
                    Some(
                        EntryRead {
                            entry: Some((key, DataView::Integer(i32_from_bits(bits)))),
                            next: value_at + 4,
                        },
                    )
                }
            } else if tag == 2 {
                if value_at + 8 > block.len() {
                    None
                } else {
                    let bits = u64_from_be(block.subrange(value_at, value_at + 8));
                    Some(
                        EntryRead {
                            entry: Some((key, DataView::Float(bits))),
                            next: value_at + 8,
                        },
                    )
                }
            } else if tag == 3 {
                let nul = first_nul(block, value_at);
                let text = text_of(block.subrange(value_at, nul));
                Some(EntryRead { entry: Some((key, DataView::Text(text))), next: nul + 1 })
            } else if tag == 4 {
                Some(
                    EntryRead {
                        entry: Some((key, DataView::Boolean(block[value_at] != 0))),
                        next: value_at + 1,
                    },
                )
            } else {
                Some(EntryRead { entry: None, next: value_at })
            }
        }
    }
}

/// Reads entries from `at` on until the end of the block is reached or
/// passed, writing each into `acc`, a later one over an earlier one with the
/// same key. `None` where one of them cannot be read.
pub open spec fn parse_entries(
    block: Seq<u8>,
    at: int,
    acc: Map<Seq<char>, DataView>,
) -> Option<Map<Seq<char>, DataView>>
    decreases
            (if block.len() > at {
                block.len() - at
            } else {
                0
            }),
{
    if at >= block.len() {
        Some(acc)
    } else {
        let read = parse_entry(block, at);
        if read is None || read.unwrap().next <= at {
            None
        } else {
            parse_entries(
                block,
                read.unwrap().next,
                match read.unwrap().entry {
                    Some(entry) => acc.insert(entry.0, entry.1),
                    None => acc,
                },
            )
        }
    }
}

/// The size that the four bytes at `offset` declare for the data block that
/// starts there. It counts those four bytes too.
pub open spec fn declared_size(buf: Seq<u8>, offset: int) -> int {
    u32_from_be(buf.subrange(offset, offset + 4)) as int
}

/// The data block that starts at `offset`: as many bytes as it declares.
pub open spec fn declared_block(buf: Seq<u8>, offset: int) -> Seq<u8> {
    buf.subrange(offset, offset + declared_size(buf, offset))
}

/// Reads the data block that starts at `offset`: four bytes of size, then
/// entries up to that size. `None` where the size field or the block it
/// declares does not lie inside the buffer, or where an entry cannot be
/// read inside the block. Only the declared block is read: what stands
/// behind it in the buffer has no part in the result. A block that declares
/// fewer than four bytes holds no entries.
pub open spec fn parse_container(buf: Seq<u8>, offset: int) -> Option<Map<Seq<char>, DataView>> {
    if offset < 0 || offset + 4 > buf.len() {
        None
    } else if offset + declared_size(buf, offset) > buf.len() {
        None
    } else {
        parse_entries(declared_block(buf, offset), 4, Map::empty())
    }
}

/// Reading stays inside the declared block. A data block whose size field,
/// or whose declared size, reaches past the end of the buffer is not read at
/// all. An entry that is read lies inside the block: it starts with at least
/// four bytes before the end of the block, and the next entry starts behind
/// it and no further than one byte past that end, where a text without its
/// closing zero byte has run up to it.
pub proof fn lemma_parse_stays_inside(buf: Seq<u8>, offset: int, block: Seq<u8>, at: int)
    ensures
        offset < 0 || offset + 4 > buf.len() ==> parse_container(buf, offset) is None,
        0 <= offset && offset + 4 <= buf.len() && offset + declared_size(buf, offset) > buf.len()
            ==> parse_container(buf, offset) is None,
        parse_entry(block, at) matches Some(read) ==> 0 <= at && at + 4 <= block.len() && at + 3
            <= read.next <= block.len() + 1,
        at < 0 || at + 4 > block.len() ==> parse_entry(block, at) is None,
{
    lemma_first_nul_bounds(block, at + 3);
    if 0 <= at && at + 2 <= block.len() {
        let key_len = u16_from_be(block.subrange(at, at + 2)) as int;
        lemma_first_nul_bounds(block, at + 3 + key_len);
    }
}

/// What stands behind the declared block has no part in the result: with
/// any bytes appended to a buffer that holds the whole block, the block
/// reads as it did.
pub proof fn lemma_trailing_bytes(buf: Seq<u8>, offset: int, tail: Seq<u8>)
    requires
        0 <= offset,
        offset + 4 <= buf.len(),
        offset + declared_size(buf, offset) <= buf.len(),
    ensures
        parse_container(buf + tail, offset) == parse_container(buf, offset),
{
    let longer = buf + tail;
    assert(longer.subrange(offset, offset + 4) =~= buf.subrange(offset, offset + 4));
    assert(declared_block(longer, offset) =~= declared_block(buf, offset));
}

/// The first zero byte at or after `from` stands at or after `from`, and
/// inside the block or right at its end.
pub proof fn lemma_first_nul_bounds(block: Seq<u8>, from: int)
    ensures
        0 <= from <= block.len() ==> from <= first_nul(block, from) <= block.len(),
    decreases block.len() - from,
{
    if 0 <= from < block.len() && block[from] != 0 {
        lemma_first_nul_bounds(block, from + 1);
    }
}

/// Where the first zero byte at or after `from` stands.
fn find_nul(buf: &[u8], from: usize) -> (nul: usize)
    requires
        from <= buf.len(),
    ensures
        nul == first_nul(buf@, from as int),
        from <= nul <= buf.len(),
        forall|i: int| from <= i < nul ==> buf@[i] != 0,
        nul < buf.len() ==> buf@[nul as int] == 0,
{
    let mut i: usize = from;
    while i < buf.len() && buf[i] != 0
        invariant
            from <= i <= buf.len(),
            first_nul(buf@, from as int) == first_nul(buf@, i as int),
            forall|j: int| from <= j < i ==> buf@[j] != 0,
        decreases buf.len() - i,
    {
        i += 1;
    }
    i
}

/// Reads the data block that starts at `data_offset` of `content_buffer`.
/// Nothing outside the declared block is read: a block that does not fit
/// the buffer gives `None`, and so does an entry that does not fit the
/// block.
pub fn parse_data_container(content_buffer: Vec<u8>, data_offset: usize) -> (r: Option<Container>)
    ensures
        match r {
            Some(container) => container.wf() && parse_container(
                content_buffer@,
                data_offset as int,
            ) == Some(container@),
            None => parse_container(content_buffer@, data_offset as int) is None,
        },
{
    let whole = content_buffer.as_slice();
    let total: usize = whole.len();
    if data_offset > total || total - data_offset < 4 {
        return None;
    }
    let len: usize = read_u32_be(whole, data_offset) as usize;
    if len > total - data_offset {
        return None;
    }
    let block = slice_subrange(whole, data_offset, data_offset + len);
    let mut container = Container::new();
    let mut offset: usize = 4;
    while offset < len
        invariant
            block@ == declared_block(content_buffer@, data_offset as int),
            len == block@.len(),
            container.wf(),
            parse_container(content_buffer@, data_offset as int) == parse_entries(
                block@,
                offset as int,
                container@,
            ),
        decreases
                (if len > offset {
                    len - offset
                } else {
                    0
                }),
    {
        if len - offset < 2 {
            return None;
        }
        let key_len: usize = read_u16_be(block, offset) as usize;
        let key_at: usize = offset + 2;
        if len - key_at < 2 || key_len > len - key_at - 2 {
            return None;
        }
        let tag_at: usize = key_at + key_len;
        let key: &str = match text_from_utf8(slice_subrange(block, key_at, tag_at)) {
            Some(key) => key,
            None => "unknown",
        };
        let value_at: usize = tag_at + 1;
        match Data::try_from(block[tag_at]) {
            Ok(Data::Integer(_)) => {
                if len - value_at < 4 {
                    return None;
                }
                let value: i32 = bits_to_i32(read_u32_be(block, value_at));
                container.add_item(key, Data::Integer(value));
                offset = value_at + 4;
            },
            Ok(Data::Float(_)) => {
                if len - value_at < 8 {
                    return None;
                }
                let bits: u64 = read_u64_be(block, value_at);
                container.add_item(key, Data::Float(bits));
                offset = value_at + 8;
            },
            Ok(Data::Text(_)) => {
                let nul: usize = find_nul(block, value_at);
                let text = text_from_utf8_lossy(slice_subrange(block, value_at, nul));
                container.add_item(key, Data::Text(text));
                if nul == len {
                    assert(parse_entries(block@, nul + 1, container@) == Some(container@));
                    return Some(container);
                }
                offset = nul + 1;
            },
            Ok(Data::Boolean(_)) => {
                let value = block[value_at] != 0;
                container.add_item(key, Data::Boolean(value));
                offset = value_at + 1;
            },
            Err(_) => {
                offset = value_at;
            },
        }
    }
    Some(container)
}

} // verus!
