//! The key/value payload that commands carry and that node actions receive.

use crate::network::assoc::{
    distinct_keys, entries_map, first_with_key, lemma_entries_map, lemma_push_entry,
    lemma_update_entry,
};
use crate::protocol::byte_order::{
    i32_bits, i32_to_bits, lemma_u16_round_trip, lemma_u32_round_trip, lemma_u64_round_trip,
    push_bytes, push_u16_be, push_u32_be, push_u64_be, u16_be, u32_be, u32_from_be, u64_be,
};
use vstd::arithmetic::div_mod::lemma_add_mod_noop_right;
use vstd::prelude::*;
use vstd::string::*;
use vstd::utf8::*;

verus! {

/// One tagged value. `Float` holds the IEEE-754 bit pattern of a 64-bit
/// floating-point number (`f64::to_bits`), which is what travels on the wire.
#[derive(Debug)]
pub enum Data {
    Integer(i32),
    Float(u64),
    Text(String),
    Boolean(bool),
}

/// What a `Data` is, as a mathematical value.
pub ghost enum DataView {
    Integer(i32),
    Float(u64),
    Text(Seq<char>),
    Boolean(bool),
}

impl View for Data {
    type V = DataView;

    open spec fn view(&self) -> DataView {
        match self {
            Data::Integer(i) => DataView::Integer(*i),
            Data::Float(bits) => DataView::Float(*bits),
            Data::Text(text) => DataView::Text(text@),
            Data::Boolean(b) => DataView::Boolean(*b),
        }
    }
}

/// The wire tag of a value.
pub open spec fn tag_of(value: DataView) -> u8 {
    match value {
        DataView::Integer(_) => 1,
        DataView::Float(_) => 2,
        DataView::Text(_) => 3,
        DataView::Boolean(_) => 4,
    }
}

/// The blank value of the kind that a wire tag names.
pub open spec fn blank_of(tag: u8) -> DataView {
    if tag == 1 {
        DataView::Integer(0)
    } else if tag == 2 {
        DataView::Float(0)
    } else if tag == 3 {
        DataView::Text(Seq::empty())
    } else {
        DataView::Boolean(false)
    }
}

/// The bytes that encode a value, after its tag.
pub open spec fn value_bytes(value: DataView) -> Seq<u8> {
    match value {
        DataView::Integer(i) => u32_be(i32_bits(i)),
        DataView::Float(bits) => u64_be(bits),
        DataView::Text(text) => encode_utf8(text).push(0u8),
        DataView::Boolean(b) => seq![if b { 1u8 } else { 0u8 }],
    }
}

/// How many bytes encode a value, after its tag.
pub open spec fn value_size(value: DataView) -> nat {
    match value {
        DataView::Integer(_) => 4,
        DataView::Float(_) => 8,
        DataView::Text(text) => encode_utf8(text).len() + 1,
        DataView::Boolean(_) => 1,
    }
}

/// A key with its value.
pub type EntryView = (Seq<char>, DataView);

/// How many bytes encode one entry: key length, key, tag, value.
pub open spec fn entry_size(entry: EntryView) -> nat {
    2 + encode_utf8(entry.0).len() + 1 + value_size(entry.1)
}

/// The bytes that encode one entry. The key's length is written in sixteen
/// bits, so of a longer key only the low sixteen bits of the length appear.
pub open spec fn entry_bytes(entry: EntryView) -> Seq<u8> {
    u16_be((encode_utf8(entry.0).len() % 0x1_0000) as u16) + encode_utf8(entry.0) + seq![
        tag_of(entry.1),
    ] + value_bytes(entry.1)
}

/// How many bytes encode a run of entries.
pub open spec fn entries_size(entries: Seq<EntryView>) -> nat
    decreases entries.len(),
{
    if entries.len() == 0 {
        0
    } else {
        entries_size(entries.drop_last()) + entry_size(entries.last())
    }
}

/// The bytes that encode a run of entries, one after the other.
pub open spec fn entries_bytes(entries: Seq<EntryView>) -> Seq<u8>
    decreases entries.len(),
{
    if entries.len() == 0 {
        Seq::empty()
    } else {
        entries_bytes(entries.drop_last()) + entry_bytes(entries.last())
    }
}

/// The size of a whole data block: the four bytes of the size field and the
/// entries.
pub open spec fn serialized_size(entries: Seq<EntryView>) -> nat {
    4 + entries_size(entries)
}

/// A whole data block: the size field, then the entries. The size field has
/// thirty-two bits and holds the low thirty-two bits of the size.
pub open spec fn container_bytes(entries: Seq<EntryView>) -> Seq<u8> {
    u32_be((serialized_size(entries) % 0x1_0000_0000) as u32) + entries_bytes(entries)
}

/// The encoding of an entry is as long as `entry_size` says.
pub proof fn lemma_entry_bytes_len(entry: EntryView)
    ensures
        entry_bytes(entry).len() == entry_size(entry),
        value_bytes(entry.1).len() == value_size(entry.1),
{
    lemma_u16_round_trip((encode_utf8(entry.0).len() % 0x1_0000) as u16);
    match entry.1 {
        DataView::Integer(i) => lemma_u32_round_trip(i32_bits(i)),
        DataView::Float(bits) => lemma_u64_round_trip(bits),
        _ => {},
    }
}

/// The size that a data block states is its length, as long as that length
/// fits the thirty-two bits of the size field.
pub proof fn lemma_size_is_length(entries: Seq<EntryView>)
    ensures
        container_bytes(entries).len() == serialized_size(entries),
        serialized_size(entries) <= u32::MAX ==> u32_from_be(
            container_bytes(entries).subrange(0, 4),
        ) == container_bytes(entries).len(),
{
    let stated = (serialized_size(entries) % 0x1_0000_0000) as u32;
    lemma_u32_round_trip(stated);
    lemma_entries_bytes_len(entries);
    assert(container_bytes(entries).subrange(0, 4) =~= u32_be(stated));
}

/// The encoding of a run of entries is as long as `entries_size` says.
pub proof fn lemma_entries_bytes_len(entries: Seq<EntryView>)
    ensures
        entries_bytes(entries).len() == entries_size(entries),
    decreases entries.len(),
{
    if entries.len() > 0 {
        lemma_entries_bytes_len(entries.drop_last());
        lemma_entry_bytes_len(entries.last());
    }
}

impl Data {
    /// The wire tag of this value.
    pub fn get_data_type(&self) -> (tag: u8)
        ensures
            tag == tag_of(self@),
    {
        match self {
            Data::Integer(_) => 1,
            Data::Float(_) => 2,
            Data::Text(_) => 3,
            Data::Boolean(_) => 4,
        }
    }

    /// A blank value of the kind that a wire tag names. A tag that names no
    /// kind is an error.
    pub fn try_from(value: u8) -> (r: Result<Data, &'static str>)
        ensures
            match r {
                Ok(data) => 1 <= value <= 4 && data@ == blank_of(value),
                Err(_) => !(1 <= value <= 4),
            },
    {
        match value {
            1 => Ok(Data::Integer(0)),
            2 => Ok(Data::Float(0)),
            3 => Ok(Data::Text(String::new())),
            4 => Ok(Data::Boolean(false)),
            _ => Err("unknown data type"),
        }
    }
}

impl Clone for Data {
    fn clone(&self) -> (r: Self)
        ensures
            r@ == self@,
    {
        match self {
            Data::Integer(i) => Data::Integer(*i),
            Data::Float(bits) => Data::Float(*bits),
            Data::Text(text) => Data::Text(text.clone()),
            Data::Boolean(b) => Data::Boolean(*b),
        }
    }
}

/// A key and its value, as the container stores them.
#[derive(Debug)]
struct Entry {
    key: String,
    value: Data,
}

/// A mapping from string keys to values. Each key occurs once; a second
/// write under a key replaces the first.
#[derive(Debug)]
pub struct Container {
    items: Vec<Entry>,
}

impl View for Container {
    type V = Map<Seq<char>, DataView>;

    /// The mapping that the container holds.
    closed spec fn view(&self) -> Map<Seq<char>, DataView> {
        entries_map(self.entries())
    }
}

impl Container {
    /// The entries in the order in which they are written out.
    pub closed spec fn entries(&self) -> Seq<EntryView> {
        Seq::new(self.items.len() as nat, |i: int| (self.items[i].key@, self.items[i].value@))
    }

    /// The container is well formed: no key occurs twice.
    pub open spec fn wf(&self) -> bool {
        distinct_keys(self.entries())
    }

    /// The view is the mapping that the entries spell.
    pub proof fn lemma_view(&self)
        ensures
            self@ == entries_map(self.entries()),
    {
    }

    pub fn new() -> (c: Self)
        ensures
            c.wf(),
            c.entries() == Seq::<EntryView>::empty(),
            c@ == Map::<Seq<char>, DataView>::empty(),
    {
        let c = Container { items: Vec::new() };
        assert(c.entries() =~= Seq::<EntryView>::empty());
        c
    }

    /// How many entries the container holds.
    pub fn len(&self) -> (n: usize)
        ensures
            n == self.entries().len(),
    {
        self.items.len()
    }

    fn position(&self, key: &str) -> (r: Option<usize>)
        ensures
            match r {
                Some(i) => i < self.entries().len() && self.entries()[i as int].0 == key@,
                None => forall|i: int|
                    0 <= i < self.entries().len() ==> (#[trigger] self.entries()[i]).0 != key@,
            },
    {
        let wanted = key.to_owned();
        let mut i: usize = 0;
        while i < self.items.len()
            invariant
                i <= self.items.len(),
                wanted@ == key@,
                forall|j: int| 0 <= j < i ==> (#[trigger] self.entries()[j]).0 != key@,
            decreases self.items.len() - i,
        {
            if self.items[i].key == wanted {
                return Some(i);
            }
            i += 1;
        }
        None
    }

    /// Writes `value` under `key`, in place of what stood there.
    pub fn add_item(&mut self, key: &str, value: Data)
        requires
            old(self).wf(),
        ensures
            final(self).wf(),
            final(self)@ == old(self)@.insert(key@, value@),
            match first_with_key(old(self).entries(), key@) {
                Some(i) => final(self).entries() == old(self).entries().update(i, (key@, value@)),
                None => final(self).entries() == old(self).entries().push((key@, value@)),
            },
    {
        let ghost before = self.entries();
        let ghost pair = (key@, value@);
        match self.position(key) {
            Some(i) => {
                self.items[i].value = value;
                proof {
                    assert(self.entries() =~= before.update(i as int, pair));
                    lemma_update_entry(before, i as int, key@, value@);
                }
            },
            None => {
                self.items.push(Entry { key: key.to_owned(), value });
                proof {
                    assert(self.entries() =~= before.push(pair));
                    lemma_push_entry(before, key@, value@);
                }
            },
        }
    }

    /// The value that stands under `key`.
    pub fn get_item(&self, key: &str) -> (r: Option<&Data>)
        requires
            self.wf(),
        ensures
            match r {
                Some(value) => self@.contains_key(key@) && value@ == self@[key@],
                None => !self@.contains_key(key@),
            },
    {
        proof {
            lemma_entries_map(self.entries());
        }
        match self.position(key) {
            Some(i) => {
                assert(self.entries()[i as int].1 == self.items[i as int].value@);
                Some(&self.items[i].value)
            },
            None => None,
        }
    }

    /// The size of the encoded container, as the size field states it: the
    /// low thirty-two bits of the number of bytes.
    pub fn get_data_size(&self) -> (size: u32)
        ensures
            size == serialized_size(self.entries()) % 0x1_0000_0000,
            serialized_size(self.entries()) <= u32::MAX ==> size == serialized_size(self.entries()),
    {
        let mut size: u128 = 4;
        let mut i: usize = 0;
        while i < self.items.len()
            invariant
                i <= self.items.len(),
                size < 0x1_0000_0000,
                size == serialized_size(self.entries().take(i as int)) % 0x1_0000_0000,
            decreases self.items.len() - i,
        {
            let entry = &self.items[i];
            let key_len: u128 = entry.key.as_str().as_bytes().len() as u128;
            let value_len: u128 = match &entry.value {
                Data::Integer(_) => 4,
                Data::Float(_) => 8,
                Data::Text(text) => text.as_str().as_bytes().len() as u128 + 1,
                Data::Boolean(_) => 1,
            };
            proof {
                let done = self.entries().take(i as int);
                let more = self.entries().take(i + 1);
                assert(more.drop_last() =~= done);
                assert(more.last() == self.entries()[i as int]);
                assert(entries_size(more) == entries_size(done) + entry_size(more.last()));
                assert(3 + key_len + value_len == entry_size(more.last()));
                lemma_add_mod_noop_right(
                    entry_size(more.last()) as int,
                    serialized_size(done) as int,
                    0x1_0000_0000,
                );
            }
            size = (3 + key_len + value_len + size) % 0x1_0000_0000;
            i += 1;
        }
        assert(self.entries().take(i as int) =~= self.entries());
        size as u32
    }

    /// The encoded container: the size field, then each entry as key length,
    /// key, tag and value, in the order of `entries`.
    pub fn get_bytes(&self) -> (bytes: Vec<u8>)
        ensures
            bytes@ == container_bytes(self.entries()),
            bytes@.len() == serialized_size(self.entries()),
    {
        let size: u32 = self.get_data_size();
        let mut buffer: Vec<u8> = Vec::new();
        push_u32_be(&mut buffer, size);
        let ghost head = buffer@;
        proof {
            lemma_u32_round_trip(size);
        }
        let mut i: usize = 0;
        while i < self.items.len()
            invariant
                i <= self.items.len(),
                head == u32_be(size),
                buffer@ == head + entries_bytes(self.entries().take(i as int)),
            decreases self.items.len() - i,
        {
            let entry = &self.items[i];
            let ghost start = buffer@;
            let key = entry.key.as_str().as_bytes();
            let key_len: u16 = (key.len() as u64 % 0x1_0000) as u16;
            push_u16_be(&mut buffer, key_len);
            push_bytes(&mut buffer, key);
            buffer.push(entry.value.get_data_type());
            match &entry.value {
                Data::Integer(value) => push_u32_be(&mut buffer, i32_to_bits(*value)),
                Data::Float(bits) => push_u64_be(&mut buffer, *bits),
                Data::Text(text) => {
                    push_bytes(&mut buffer, text.as_str().as_bytes());
                    buffer.push(0);
                },
                Data::Boolean(b) => buffer.push(if *b { 1 } else { 0 }),
            }
            proof {
                let done = self.entries().take(i as int);
                let more = self.entries().take(i + 1);
                assert(more.drop_last() =~= done);
                assert(more.last() == self.entries()[i as int]);
                assert(buffer@ =~= start + entry_bytes(more.last()));
                assert(buffer@ =~= head + entries_bytes(more));
            }
            i += 1;
        }
        proof {
            assert(self.entries().take(i as int) =~= self.entries());
            lemma_entries_bytes_len(self.entries());
        }
        buffer
    }
}

impl Clone for Container {
    fn clone(&self) -> (r: Self)
        ensures
            r.entries() == self.entries(),
            r@ == self@,
            self.wf() ==> r.wf(),
    {
        let mut items: Vec<Entry> = Vec::new();
        let mut i: usize = 0;
        while i < self.items.len()
            invariant
                i <= self.items.len(),
                items.len() == i,
                forall|j: int|
                    0 <= j < i ==> {
                        &&& (#[trigger] items[j]).key@ == self.items[j].key@
                        &&& items[j].value@ == self.items[j].value@
                    },
            decreases self.items.len() - i,
        {
            let entry = &self.items[i];
            items.push(Entry { key: entry.key.clone(), value: entry.value.clone() });
            i += 1;
        }
        let r = Container { items };
        assert(r.entries() =~= self.entries());
        r
    }
}

} // verus!
