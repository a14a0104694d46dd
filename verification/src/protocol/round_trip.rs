//! What is written can be read back: the laws that tie the encoder to the
//! decoder.

use crate::network::assoc::entries_map;
use crate::network::data_container::{
    container_bytes, entries_bytes, entries_size, entry_bytes, entry_size,
    lemma_entries_bytes_len, lemma_entry_bytes_len, serialized_size, tag_of, value_bytes,
    DataView, EntryView,
};
use crate::protocol::byte_order::{
    i32_bits, lemma_i32_round_trip, lemma_u16_round_trip, lemma_u32_round_trip,
    lemma_u64_round_trip, u16_be, u32_be, u64_be,
};
use crate::protocol::commands::{header_bytes, HeaderView};
use crate::protocol::protocol_parser::{
    declared_block, declared_size, first_nul, header_of, parse_container, parse_entries,
    parse_entry, EntryRead,
};
use vstd::prelude::*;
use vstd::utf8::{encode_utf8, encode_utf8_decode_utf8, encode_utf8_valid_utf8};

verus! {

/// No byte is zero.
pub open spec fn no_nul(bytes: Seq<u8>) -> bool {
    forall|i: int| 0 <= i < bytes.len() ==> bytes[i] != 0
}

/// An entry can be read back from its encoding: the length of its key fits
/// the sixteen bits of the length field, and a text holds no zero byte, which
/// would end it early.
pub open spec fn entry_encodable(entry: EntryView) -> bool {
    &&& encode_utf8(entry.0).len() <= 0xFFFF
    &&& entry.1 matches DataView::Text(text) ==> no_nul(encode_utf8(text))
}

/// Every entry can be read back, and the size of the whole fits the
/// thirty-two bits of the size field.
pub open spec fn encodable(entries: Seq<EntryView>) -> bool {
    &&& serialized_size(entries) <= u32::MAX
    &&& forall|i: int| 0 <= i < entries.len() ==> entry_encodable(#[trigger] entries[i])
}

proof fn lemma_first_nul(buf: Seq<u8>, from: int, nul: int)
    requires
        0 <= from <= nul < buf.len(),
        buf[nul] == 0,
        forall|j: int| from <= j < nul ==> buf[j] != 0,
    ensures
        first_nul(buf, from) == nul,
    decreases nul - from,
{
    if from < nul {
        lemma_first_nul(buf, from + 1, nul);
    }
}

/// Where the encoding of an entry stands in a buffer, reading an entry there
/// gives that entry and ends right behind it.
pub proof fn lemma_parse_entry(buf: Seq<u8>, at: int, entry: EntryView)
    requires
        0 <= at,
        at + entry_size(entry) <= buf.len(),
        buf.subrange(at, at + entry_size(entry)) == entry_bytes(entry),
        entry_encodable(entry),
    ensures
        parse_entry(buf, at) == Some(
            EntryRead { entry: Some(entry), next: at + entry_size(entry) },
        ),
{
    let key_bytes = encode_utf8(entry.0);
    let key_len = key_bytes.len() as int;
    let whole = entry_bytes(entry);
    let key_at = at + 2;
    let tag_at = key_at + key_len;
    let value_at = tag_at + 1;
    lemma_entry_bytes_len(entry);
    lemma_u16_round_trip(key_len as u16);
    assert forall|k: int| 0 <= k < whole.len() implies buf[at + k] == #[trigger] whole[k] by {
        assert(buf.subrange(at, at + entry_size(entry))[k] == buf[at + k]);
    }
    assert(buf.subrange(at, key_at) =~= u16_be(key_len as u16)) by {
        assert forall|k: int| 0 <= k < 2 implies #[trigger] buf.subrange(at, key_at)[k] == u16_be(
            key_len as u16,
        )[k] by {
            assert(buf[at + k] == whole[k]);
        }
    }
    assert(buf.subrange(key_at, tag_at) =~= key_bytes) by {
        assert forall|k: int| 0 <= k < key_len implies #[trigger] buf.subrange(key_at, tag_at)[k]
            == key_bytes[k] by {
            assert(buf[at + (2 + k)] == whole[2 + k]);
        }
    }
    encode_utf8_valid_utf8(entry.0);
    encode_utf8_decode_utf8(entry.0);
    assert(buf[tag_at] == tag_of(entry.1)) by {
        assert(buf[at + (2 + key_len)] == whole[2 + key_len]);
    }
    let value = value_bytes(entry.1);
    assert forall|k: int| 0 <= k < value.len() implies buf[value_at + k] == #[trigger] value[k] by {
        assert(buf[at + (3 + key_len + k)] == whole[3 + key_len + k]);
    }
    match entry.1 {
        DataView::Integer(i) => {
            lemma_u32_round_trip(i32_bits(i));
            lemma_i32_round_trip(i);
            assert(buf.subrange(value_at, value_at + 4) =~= u32_be(i32_bits(i))) by {
                assert forall|k: int| 0 <= k < 4 implies #[trigger] buf.subrange(
                    value_at,
                    value_at + 4,
                )[k] == value[k] by {
                    assert(buf[value_at + k] == value[k]);
                }
            }
        },
        DataView::Float(bits) => {
            lemma_u64_round_trip(bits);
            assert(buf.subrange(value_at, value_at + 8) =~= u64_be(bits)) by {
                assert forall|k: int| 0 <= k < 8 implies #[trigger] buf.subrange(
                    value_at,
                    value_at + 8,
                )[k] == value[k] by {
                    assert(buf[value_at + k] == value[k]);
                }
            }
        },
        DataView::Text(text) => {
            let text_bytes = encode_utf8(text);
            let nul = value_at + text_bytes.len();
            assert(buf[nul] == 0) by {
                assert(buf[value_at + text_bytes.len()] == value[text_bytes.len() as int]);
            }
            assert forall|j: int| value_at <= j < nul implies buf[j] != 0 by {
                assert(buf[value_at + (j - value_at)] == value[j - value_at]);
                assert(value[j - value_at] == text_bytes[j - value_at]);
            }
            lemma_first_nul(buf, value_at, nul);
            assert(buf.subrange(value_at, nul) =~= text_bytes) by {
                assert forall|k: int| 0 <= k < text_bytes.len() implies #[trigger] buf.subrange(
                    value_at,
                    nul,
                )[k] == text_bytes[k] by {
                    assert(buf[value_at + k] == value[k]);
                }
            }
            encode_utf8_valid_utf8(text);
            encode_utf8_decode_utf8(text);
        },
        DataView::Boolean(b) => {
            assert(buf[value_at + 0] == value[0]);
        },
    }
}

/// The encoding of the first entries of a run opens the encoding of the run.
pub proof fn lemma_entries_bytes_prefix(entries: Seq<EntryView>, i: int)
    requires
        0 <= i <= entries.len(),
    ensures
        entries_size(entries.take(i)) <= entries_size(entries),
        entries_bytes(entries).subrange(0, entries_size(entries.take(i)) as int) == entries_bytes(
            entries.take(i),
        ),
    decreases entries.len(),
{
    lemma_entries_bytes_len(entries);
    if i == entries.len() {
        assert(entries.take(i) =~= entries);
        assert(entries_bytes(entries).subrange(0, entries_size(entries) as int) =~= entries_bytes(
            entries,
        ));
    } else {
        let front = entries.drop_last();
        lemma_entries_bytes_prefix(front, i);
        lemma_entries_bytes_len(front);
        assert(front.take(i) =~= entries.take(i));
        assert(entries_bytes(entries).subrange(0, entries_size(entries.take(i)) as int)
            =~= entries_bytes(front).subrange(0, entries_size(entries.take(i)) as int));
    }
}

/// Where the encoding of a run of entries stands at the end of a block,
/// reading on from behind the first `i` of them, with what they spell in
/// hand, gives what the whole run spells.
pub proof fn lemma_parse_entries(buf: Seq<u8>, base: int, entries: Seq<EntryView>, i: int)
    requires
        0 <= base,
        base + entries_size(entries) == buf.len(),
        buf.subrange(base, base + entries_size(entries)) == entries_bytes(entries),
        forall|k: int| 0 <= k < entries.len() ==> entry_encodable(#[trigger] entries[k]),
        0 <= i <= entries.len(),
    ensures
        parse_entries(
            buf,
            base + entries_size(entries.take(i)),
            entries_map(entries.take(i)),
        ) == Some(entries_map(entries)),
    decreases entries.len() - i,
{
    let end = base + entries_size(entries);
    let at = base + entries_size(entries.take(i));
    if i == entries.len() {
        assert(entries.take(i) =~= entries);
    } else {
        let done = entries.take(i);
        let more = entries.take(i + 1);
        let entry = entries[i];
        assert(more.drop_last() =~= done);
        assert(more.last() == entry);
        lemma_entries_bytes_prefix(entries, i);
        lemma_entries_bytes_prefix(entries, i + 1);
        lemma_entries_bytes_len(entries);
        lemma_entries_bytes_len(done);
        lemma_entries_bytes_len(more);
        lemma_entry_bytes_len(entry);
        let next = base + entries_size(more);
        assert(next == at + entry_size(entry));
        assert(buf.subrange(at, next) =~= entry_bytes(entry)) by {
            let all = entries_bytes(entries);
            assert forall|k: int| 0 <= k < entry_size(entry) implies #[trigger] buf.subrange(at, next)[k]
                == entry_bytes(entry)[k] by {
                let p = entries_size(done) + k;
                assert(buf.subrange(base, end)[p] == buf[base + p]);
                assert(all.subrange(0, entries_size(more) as int)[p] == all[p]);
                assert(entries_bytes(more)[p] == entry_bytes(entry)[k]);
            }
        }
        lemma_parse_entry(buf, at, entry);
        lemma_parse_entries(buf, base, entries, i + 1);
        assert(entries_map(more) == entries_map(done).insert(entry.0, entry.1));
    }
}

/// Reading back an encoded container gives the mapping that was encoded,
/// wherever in a buffer the encoding stands and whatever stands behind it.
pub proof fn lemma_container_round_trip(buf: Seq<u8>, offset: int, entries: Seq<EntryView>)
    requires
        encodable(entries),
        0 <= offset,
        offset + serialized_size(entries) <= buf.len(),
        buf.subrange(offset, offset + serialized_size(entries)) == container_bytes(entries),
    ensures
        parse_container(buf, offset) == Some(entries_map(entries)),
{
    let size = serialized_size(entries);
    let whole = container_bytes(entries);
    lemma_u32_round_trip(size as u32);
    lemma_entries_bytes_len(entries);
    assert forall|k: int| 0 <= k < whole.len() implies buf[offset + k] == #[trigger] whole[k] by {
        assert(buf.subrange(offset, offset + size)[k] == buf[offset + k]);
    }
    assert(buf.subrange(offset, offset + 4) =~= u32_be(size as u32)) by {
        assert forall|k: int| 0 <= k < 4 implies #[trigger] buf.subrange(offset, offset + 4)[k]
            == u32_be(size as u32)[k] by {
            assert(buf[offset + k] == whole[k]);
        }
    }
    assert(declared_size(buf, offset) == size);
    assert(declared_block(buf, offset) == whole);
    assert(whole.subrange(4, 4 + entries_size(entries) as int) =~= entries_bytes(entries));
    lemma_parse_entries(whole, 4, entries, 0);
    assert(entries.take(0) =~= Seq::<EntryView>::empty());
}

/// Reading back the encoding of a container, taken alone, gives the mapping
/// that the container holds.
pub proof fn lemma_serialize_then_parse(entries: Seq<EntryView>)
    requires
        encodable(entries),
    ensures
        container_bytes(entries).len() == serialized_size(entries),
        parse_container(container_bytes(entries), 0) == Some(entries_map(entries)),
{
    let whole = container_bytes(entries);
    lemma_u32_round_trip(serialized_size(entries) as u32);
    lemma_entries_bytes_len(entries);
    assert(whole.subrange(0, whole.len() as int) =~= whole);
    lemma_container_round_trip(whole, 0, entries);
}

/// A header reads back from its thirty-eight bytes, whatever follows them:
/// version, stated length, command type and both identifiers are those that
/// were written.
pub proof fn lemma_header_round_trip(header: HeaderView, rest: Seq<u8>)
    requires
        header.network.len() == 16,
        header.node.len() == 16,
    ensures
        header_bytes(header).len() == 38,
        header_of((header_bytes(header) + rest).subrange(0, 38)) == header,
{
    let head = header_bytes(header);
    lemma_u32_round_trip(header.content_length);
    let first = (head + rest).subrange(0, 38);
    assert(first =~= head);
    assert(head.subrange(1, 5) =~= u32_be(header.content_length));
    assert(head.subrange(6, 22) =~= header.network);
    assert(head.subrange(22, 38) =~= header.node);
}

/// Behind a header, a data block reads back as the mapping that was
/// encoded.
pub proof fn lemma_body_round_trip(header: HeaderView, entries: Seq<EntryView>)
    requires
        header.network.len() == 16,
        header.node.len() == 16,
        encodable(entries),
    ensures
        parse_container(header_bytes(header) + container_bytes(entries), 38) == Some(
            entries_map(entries),
        ),
{
    let head = header_bytes(header);
    let block = container_bytes(entries);
    lemma_u32_round_trip(header.content_length);
    lemma_u32_round_trip(serialized_size(entries) as u32);
    lemma_entries_bytes_len(entries);
    assert(head.len() == 38);
    assert((head + block).subrange(38, 38 + serialized_size(entries) as int) =~= block);
    lemma_container_round_trip(head + block, 38, entries);
}

} // verus!
