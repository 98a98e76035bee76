//! Create contexts: the optional questions and answers that ride on a CREATE
//! ([MS-SMB2] sections 2.2.13.2 and 2.2.14.2).
//!
//! Three of them carry durability. `DH2Q` asks for a handle that survives a disconnect and
//! names the open with a `CreateGuid` that the client chose; `DH2C` claims such an open back by
//! repeating that guid; `QFid` asks which file on the server's disk the handle points at.
//!
//! Only the second version of the durable contexts is here. The first version claims an open
//! back by its `FileId` alone, and a `FileId` is a number that the server may hand out again.

use vstd::prelude::*;

use crate::bytes;
use crate::error::Error;
use crate::types::{FileId, Guid};

verus! {

/// `DH2Q`: a durable handle is asked for, or granted.
pub const NAME_DH2Q: [u8; 4] = [0x44, 0x48, 0x32, 0x51];

/// `DH2C`: a durable handle is claimed back.
pub const NAME_DH2C: [u8; 4] = [0x44, 0x48, 0x32, 0x43];

/// `QFid`: the file's identity on the server's disk.
pub const NAME_QFID: [u8; 4] = [0x51, 0x46, 0x69, 0x64];

/// The flag that marks a durable handle as persistent.
pub const DHANDLE_FLAG_PERSISTENT: u32 = 0x0000_0002;

/// One context: a name and whatever the name says the data means.
#[derive(Debug, PartialEq, Eq)]
pub struct CreateContext {
    pub name: Vec<u8>,
    pub data: Vec<u8>,
}

/// A context as contracts see it.
#[verifier::ext_equal]
pub struct ContextView {
    pub name: Seq<u8>,
    pub data: Seq<u8>,
}

impl View for CreateContext {
    type V = ContextView;

    open spec fn view(&self) -> ContextView {
        ContextView { name: self.name@, data: self.data@ }
    }
}

/// A list of contexts as contracts see it.
pub open spec fn views(contexts: Seq<CreateContext>) -> Seq<ContextView> {
    contexts.map_values(|c: CreateContext| c@)
}

impl CreateContext {
    /// A context of this name and data.
    pub fn new(name: [u8; 4], data: Vec<u8>) -> (c: CreateContext)
        ensures
            c@ == (ContextView { name: name@, data: data@ }),
    {
        CreateContext { name: bytes::copy_range(&name, 0, 4), data }
    }
}

// ── The chain on the wire ──────────────────────────────────────────────────

/// Where a context's data starts, counted from the start of its entry.
pub open spec fn data_offset(c: ContextView) -> int {
    16 + bytes::pad8(c.name.len() as int)
}

/// The length of a context's entry, without the padding that may follow it.
pub open spec fn entry_len(c: ContextView) -> int {
    data_offset(c) + c.data.len()
}

/// Whether the entry's own length fields can hold this context.
pub open spec fn fits(c: ContextView) -> bool {
    &&& data_offset(c) <= 0xFFFF
    &&& bytes::pad8(entry_len(c)) <= 0xFFFF_FFFF
}

/// Whether every context of a list fits.
pub open spec fn all_fit(contexts: Seq<ContextView>) -> bool {
    forall|i: int| 0 <= i < contexts.len() ==> fits(#[trigger] contexts[i])
}

/// The fixed fields of an entry; `next` is the distance to the entry that follows, or zero.
pub open spec fn entry_head(c: ContextView, next: nat) -> Seq<u8> {
    bytes::le_bytes(next, 4) + bytes::le_bytes(16, 2) + bytes::le_bytes(c.name.len(), 2)
        + bytes::le_bytes(0, 2) + bytes::le_bytes(data_offset(c) as nat, 2) + bytes::le_bytes(
        c.data.len(),
        4,
    )
}

/// One entry: fixed fields, name, padding to eight bytes, data.
pub open spec fn entry(c: ContextView, next: nat) -> Seq<u8> {
    entry_head(c, next) + c.name + bytes::zeros(
        (bytes::pad8(c.name.len() as int) - c.name.len()) as nat,
    ) + c.data
}

/// The chain of entries that carries a list of contexts. Every entry but the last is padded to
/// eight bytes.
pub open spec fn packed(contexts: Seq<ContextView>) -> Seq<u8>
    decreases contexts.len(),
{
    if contexts.len() == 0 {
        Seq::empty()
    } else if contexts.len() == 1 {
        entry(contexts[0], 0)
    } else {
        let size = entry_len(contexts[0]);
        entry(contexts[0], bytes::pad8(size) as nat) + bytes::zeros(
            (bytes::pad8(size) - size) as nat,
        ) + packed(contexts.drop_first())
    }
}

/// Whether `chain` starts with an entry whose name and data lie inside `chain`.
pub open spec fn entry_readable(chain: Seq<u8>) -> bool {
    &&& chain.len() >= 16
    &&& bytes::field(chain, 4, 2) + bytes::field(chain, 6, 2) <= chain.len()
    &&& bytes::field(chain, 10, 2) + bytes::field(chain, 12, 4) <= chain.len()
}

/// The context in the first entry of `chain`.
pub open spec fn first_context(chain: Seq<u8>) -> ContextView {
    let name_at = bytes::field(chain, 4, 2) as int;
    let data_at = bytes::field(chain, 10, 2) as int;
    ContextView {
        name: chain.subrange(name_at, name_at + bytes::field(chain, 6, 2)),
        data: chain.subrange(data_at, data_at + bytes::field(chain, 12, 4)),
    }
}

/// The contexts of a chain that has at least one entry, or nothing if an entry is malformed.
pub open spec fn parsed_entries(chain: Seq<u8>) -> Option<Seq<ContextView>>
    decreases chain.len(),
{
    if !entry_readable(chain) {
        None
    } else {
        let next = bytes::field(chain, 0, 4) as int;
        if next == 0 {
            Some(seq![first_context(chain)])
        } else if next > chain.len() {
            None
        } else {
            match parsed_entries(chain.skip(next)) {
                Some(rest) => Some(seq![first_context(chain)] + rest),
                None => None,
            }
        }
    }
}

/// The contexts of a chain, or nothing if an entry is malformed. No bytes, no contexts.
pub open spec fn parsed(chain: Seq<u8>) -> Option<Seq<ContextView>> {
    if chain.len() == 0 {
        Some(Seq::empty())
    } else {
        parsed_entries(chain)
    }
}

/// The data of the first context of this name.
pub open spec fn found(contexts: Seq<ContextView>, name: Seq<u8>) -> Option<Seq<u8>>
    decreases contexts.len(),
{
    if contexts.len() == 0 {
        None
    } else if contexts[0].name == name {
        Some(contexts[0].data)
    } else {
        found(contexts.drop_first(), name)
    }
}

proof fn lemma_entry_head_len(c: ContextView, next: nat)
    ensures
        entry_head(c, next).len() == 16,
{
    bytes::lemma_le_bytes_len(next, 4);
    bytes::lemma_le_bytes_len(16, 2);
    bytes::lemma_le_bytes_len(c.name.len(), 2);
    bytes::lemma_le_bytes_len(0, 2);
    bytes::lemma_le_bytes_len(data_offset(c) as nat, 2);
    bytes::lemma_le_bytes_len(c.data.len(), 4);
}

proof fn lemma_entry_len(c: ContextView, next: nat)
    ensures
        entry(c, next).len() == entry_len(c),
{
    lemma_entry_head_len(c, next);
}

/// Every field of an entry reads back as it was written, whatever follows the entry.
#[verifier::spinoff_prover]
#[verifier::rlimit(60)]
proof fn lemma_entry_fields(c: ContextView, next: nat, after: Seq<u8>)
    requires
        fits(c),
        next <= 0xFFFF_FFFF,
    ensures
        ({
            let chain = entry(c, next) + after;
            &&& entry_readable(chain)
            &&& bytes::field(chain, 0, 4) == next
            &&& bytes::field(chain, 4, 2) == 16
            &&& bytes::field(chain, 6, 2) == c.name.len()
            &&& bytes::field(chain, 8, 2) == 0
            &&& bytes::field(chain, 10, 2) == data_offset(c)
            &&& bytes::field(chain, 12, 4) == c.data.len()
            &&& chain.subrange(16, 16 + c.name.len() as int) == c.name
            &&& chain.subrange(data_offset(c), entry_len(c)) == c.data
            &&& first_context(chain) == c
        }),
{
    let chain = entry(c, next) + after;
    let f0 = bytes::le_bytes(next, 4);
    let f1 = bytes::le_bytes(16, 2);
    let f2 = bytes::le_bytes(c.name.len(), 2);
    let f3 = bytes::le_bytes(0, 2);
    let f4 = bytes::le_bytes(data_offset(c) as nat, 2);
    let f5 = bytes::le_bytes(c.data.len(), 4);
    let padding = bytes::zeros((bytes::pad8(c.name.len() as int) - c.name.len()) as nat);
    let tail = c.name + padding + c.data + after;
    bytes::lemma_pow256();
    lemma_entry_head_len(c, next);
    lemma_entry_len(c, next);
    bytes::lemma_le_bytes_len(next, 4);
    bytes::lemma_le_bytes_len(16, 2);
    bytes::lemma_le_bytes_len(c.name.len(), 2);
    bytes::lemma_le_bytes_len(0, 2);
    bytes::lemma_le_bytes_len(data_offset(c) as nat, 2);
    bytes::lemma_le_bytes_len(c.data.len(), 4);
    assert(bytes::field(chain, 0, 4) == next) by {
        bytes::lemma_field_written(Seq::empty(), next, 4, f1 + f2 + f3 + f4 + f5 + tail);
        assert(chain =~= Seq::<u8>::empty() + f0 + (f1 + f2 + f3 + f4 + f5 + tail));
    }
    assert(bytes::field(chain, 4, 2) == 16) by {
        bytes::lemma_field_written(f0, 16, 2, f2 + f3 + f4 + f5 + tail);
        assert(chain =~= f0 + f1 + (f2 + f3 + f4 + f5 + tail));
    }
    assert(bytes::field(chain, 6, 2) == c.name.len()) by {
        bytes::lemma_field_written(f0 + f1, c.name.len(), 2, f3 + f4 + f5 + tail);
        assert(chain =~= f0 + f1 + f2 + (f3 + f4 + f5 + tail));
    }
    assert(bytes::field(chain, 8, 2) == 0) by {
        bytes::lemma_field_written(f0 + f1 + f2, 0, 2, f4 + f5 + tail);
        assert(chain =~= f0 + f1 + f2 + f3 + (f4 + f5 + tail));
    }
    assert(bytes::field(chain, 10, 2) == data_offset(c)) by {
        bytes::lemma_field_written(f0 + f1 + f2 + f3, data_offset(c) as nat, 2, f5 + tail);
        assert(chain =~= f0 + f1 + f2 + f3 + f4 + (f5 + tail));
    }
    assert(bytes::field(chain, 12, 4) == c.data.len()) by {
        bytes::lemma_field_written(f0 + f1 + f2 + f3 + f4, c.data.len(), 4, tail);
        assert(chain =~= f0 + f1 + f2 + f3 + f4 + f5 + tail);
    }
    assert(chain.subrange(16, 16 + c.name.len() as int) =~= c.name);
    assert(chain.subrange(data_offset(c), entry_len(c)) =~= c.data);
}

/// Reading a chain gives back the contexts that were packed into it.
pub proof fn law_parse_of_packed(contexts: Seq<ContextView>)
    requires
        all_fit(contexts),
    ensures
        parsed(packed(contexts)) == Some(contexts),
    decreases contexts.len(),
{
    if contexts.len() == 1 {
        let c = contexts[0];
        lemma_entry_fields(c, 0, Seq::empty());
        lemma_entry_len(c, 0);
        assert(entry(c, 0) + Seq::<u8>::empty() =~= entry(c, 0));
        assert(seq![c] =~= contexts);
    } else if contexts.len() > 1 {
        let c = contexts[0];
        let rest = contexts.drop_first();
        let next = bytes::pad8(entry_len(c)) as nat;
        let gap = bytes::zeros((next - entry_len(c)) as nat);
        assert(all_fit(rest)) by {
            assert forall|i: int| 0 <= i < rest.len() implies fits(#[trigger] rest[i]) by {
                assert(rest[i] == contexts[i + 1]);
            }
        }
        law_parse_of_packed(rest);
        lemma_entry_len(c, next);
        lemma_entry_fields(c, next, gap + packed(rest));
        let chain = packed(contexts);
        assert(chain =~= entry(c, next) + (gap + packed(rest)));
        assert(chain.skip(next as int) =~= packed(rest));
        lemma_packed_not_empty(rest);
        assert(seq![c] + rest =~= contexts);
    }
}

/// An entry is never empty.
pub proof fn lemma_packed_not_empty(contexts: Seq<ContextView>)
    requires
        contexts.len() > 0,
    ensures
        packed(contexts).len() >= 16,
{
    if contexts.len() == 1 {
        lemma_entry_len(contexts[0], 0);
    } else {
        lemma_entry_len(contexts[0], bytes::pad8(entry_len(contexts[0])) as nat);
    }
}

/// Appends one entry.
fn put_entry(out: &mut Vec<u8>, c: &CreateContext, next: u64)
    requires
        fits(c@),
        next <= 0xFFFF_FFFF,
    ensures
        final(out)@ == old(out)@ + entry(c@, next as nat),
{
    let name_len: usize = c.name.len();
    let padded: usize = (name_len + 7) / 8 * 8;
    bytes::put_le(out, next, 4);
    bytes::put_le(out, 16, 2);
    bytes::put_le(out, name_len as u64, 2);
    bytes::put_le(out, 0, 2);
    bytes::put_le(out, (16 + padded) as u64, 2);
    bytes::put_le(out, c.data.len() as u64, 4);
    bytes::put_bytes(out, c.name.as_slice());
    bytes::put_zeros(out, padded - name_len);
    bytes::put_bytes(out, c.data.as_slice());
    assert(out@ =~= old(out)@ + entry(c@, next as nat));
}

/// What the first entry of a chain is, and what follows it.
proof fn lemma_packed_step(contexts: Seq<ContextView>, i: int)
    requires
        0 <= i < contexts.len(),
    ensures
        i + 1 == contexts.len() ==> packed(contexts.skip(i)) == entry(contexts[i], 0) && packed(
            contexts.skip(i + 1),
        ) == Seq::<u8>::empty(),
        i + 1 < contexts.len() ==> ({
            let size = entry_len(contexts[i]);
            packed(contexts.skip(i)) == entry(contexts[i], bytes::pad8(size) as nat) + bytes::zeros(
                (bytes::pad8(size) - size) as nat,
            ) + packed(contexts.skip(i + 1))
        }),
{
    let rest = contexts.skip(i);
    assert(rest[0] == contexts[i]);
    assert(rest.drop_first() =~= contexts.skip(i + 1));
}

/// The length of a context's entry, padded to eight bytes.
fn padded_entry_len(c: &CreateContext) -> (sizes: (usize, usize))
    requires
        fits(c@),
    ensures
        sizes.0 == entry_len(c@),
        sizes.1 == bytes::pad8(entry_len(c@)),
{
    let size: usize = 16 + (c.name.len() + 7) / 8 * 8 + c.data.len();
    (size, (size + 7) / 8 * 8)
}

/// The chain that carries `contexts`.
pub fn pack_contexts(contexts: &[CreateContext]) -> (chain: Vec<u8>)
    requires
        all_fit(views(contexts@)),
    ensures
        chain@ == packed(views(contexts@)),
{
    let mut out: Vec<u8> = Vec::new();
    let ghost all = views(contexts@);
    let mut i: usize = 0;
    assert(all.skip(0) =~= all);
    assert(out@ + packed(all.skip(0)) =~= packed(all));
    while i < contexts.len()
        invariant
            i <= contexts.len(),
            all == views(contexts@),
            all_fit(all),
            out@ + packed(all.skip(i as int)) == packed(all),
        decreases contexts.len() - i,
    {
        let ghost before = out@;
        let c = &contexts[i];
        assert(all[i as int] == c@);
        proof {
            lemma_packed_step(all, i as int);
        }
        if i + 1 == contexts.len() {
            put_entry(&mut out, c, 0);
            assert(out@ + Seq::<u8>::empty() =~= before + entry(c@, 0));
        } else {
            let (size, next) = padded_entry_len(c);
            put_entry(&mut out, c, next as u64);
            bytes::put_zeros(&mut out, next - size);
            assert(out@ + packed(all.skip(i + 1)) =~= before + packed(all.skip(i as int)));
        }
        i = i + 1;
    }
    assert(packed(all.skip(i as int)) =~= Seq::<u8>::empty());
    assert(out@ + Seq::<u8>::empty() =~= out@);
    out
}

/// Reads a chain of contexts. A malformed entry anywhere makes the whole chain unreadable.
pub fn parse_contexts(chain: &[u8]) -> (contexts: Result<Vec<CreateContext>, Error>)
    ensures
        match contexts {
            Ok(list) => parsed(chain@) == Some(views(list@)),
            Err(e) => parsed(chain@) is None && e == Error::InvalidData,
        },
{
    let mut out: Vec<CreateContext> = Vec::new();
    if chain.len() == 0 {
        assert(views(out@) =~= Seq::empty());
        return Ok(out);
    }
    let mut at: usize = 0;
    assert(chain@.skip(0) =~= chain@);
    loop
        invariant
            at <= chain@.len(),
            chain@.len() > 0,
            parsed_entries(chain@) == (match parsed_entries(chain@.skip(at as int)) {
                Some(rest) => Some(views(out@) + rest),
                None => None,
            }),
        decreases chain@.len() - at,
    {
        let ghost here = chain@.skip(at as int);
        let left: usize = chain.len() - at;
        if left < 16 {
            return Err(Error::InvalidData);
        }
        let next: u64 = bytes::get_le(chain, at, 4);
        let name_at: u64 = bytes::get_le(chain, at + 4, 2);
        let name_len: u64 = bytes::get_le(chain, at + 6, 2);
        let data_at: u64 = bytes::get_le(chain, at + 10, 2);
        let data_len: u64 = bytes::get_le(chain, at + 12, 4);
        proof {
            bytes::lemma_pow256();
            lemma_field_of_skip(chain@, at as int, 0, 4);
            lemma_field_of_skip(chain@, at as int, 4, 2);
            lemma_field_of_skip(chain@, at as int, 6, 2);
            lemma_field_of_skip(chain@, at as int, 10, 2);
            lemma_field_of_skip(chain@, at as int, 12, 4);
        }
        if name_at + name_len > left as u64 || data_at + data_len > left as u64 {
            return Err(Error::InvalidData);
        }
        let name_from: usize = at + name_at as usize;
        let data_from: usize = at + data_at as usize;
        let c = CreateContext {
            name: bytes::copy_range(chain, name_from, name_from + name_len as usize),
            data: bytes::copy_range(chain, data_from, data_from + data_len as usize),
        };
        let ghost before = views(out@);
        assert(c@ == first_context(here)) by {
            assert(c.name@ =~= here.subrange(name_at as int, name_at + name_len));
            assert(c.data@ =~= here.subrange(data_at as int, data_at + data_len));
        }
        out.push(c);
        assert(views(out@) =~= before + seq![first_context(here)]);
        if next == 0 {
            return Ok(out);
        }
        if next > left as u64 {
            return Err(Error::InvalidData);
        }
        proof {
            assert(here.skip(next as int) =~= chain@.skip(at + next));
            if let Some(rest) = parsed_entries(here.skip(next as int)) {
                assert(before + (seq![first_context(here)] + rest) =~= views(out@) + rest);
            }
        }
        at = at + next as usize;
    }
}

proof fn lemma_field_of_skip(chain: Seq<u8>, at: int, from: int, n: int)
    requires
        0 <= at,
        0 <= from,
        0 <= n,
        at + from + n <= chain.len(),
    ensures
        bytes::field(chain.skip(at), from, n) == bytes::field(chain, at + from, n),
{
    assert(chain.skip(at).subrange(from, from + n) =~= chain.subrange(
        at + from,
        at + from + n,
    ));
}

/// The first context of this name.
pub fn find<'a>(contexts: &'a [CreateContext], name: [u8; 4]) -> (c: Option<&'a CreateContext>)
    ensures
        match c {
            Some(c) => c@.name == name@ && found(views(contexts@), name@) == Some(c@.data),
            None => found(views(contexts@), name@) is None,
        },
{
    let ghost all = views(contexts@);
    let mut i: usize = 0;
    assert(all.skip(0) =~= all);
    while i < contexts.len()
        invariant
            i <= contexts.len(),
            all == views(contexts@),
            found(all, name@) == found(all.skip(i as int), name@),
        decreases contexts.len() - i,
    {
        assert(all.skip(i as int)[0] == contexts@[i as int]@);
        assert(all.skip(i as int).drop_first() =~= all.skip(i + 1));
        if bytes::bytes_eq(contexts[i].name.as_slice(), &name) {
            return Some(&contexts[i]);
        }
        i = i + 1;
    }
    None
}

// ── What the durable contexts say ──────────────────────────────────────────

/// The flags word of a durable context.
pub open spec fn flags_word(persistent: bool) -> nat {
    if persistent {
        DHANDLE_FLAG_PERSISTENT as nat
    } else {
        0
    }
}

fn flags_of(persistent: bool) -> (flags: u32)
    ensures
        flags == flags_word(persistent),
{
    if persistent {
        DHANDLE_FLAG_PERSISTENT
    } else {
        0
    }
}

/// A request for a handle that survives a disconnect.
#[derive(Debug, Clone, Copy, PartialEq, Eq)]
pub struct DurableRequestV2 {
    /// How long the server should hold the open, or zero to leave it to the server.
    pub timeout_ms: u32,
    pub persistent: bool,
    /// The name this client gives the open.
    pub create_guid: Guid,
}

impl DurableRequestV2 {
    /// Timeout, flags, eight reserved bytes, guid.
    pub open spec fn spec_context(self) -> ContextView {
        ContextView {
            name: NAME_DH2Q@,
            data: bytes::le_bytes(self.timeout_ms as nat, 4) + bytes::le_bytes(
                flags_word(self.persistent),
                4,
            ) + bytes::zeros(8) + self.create_guid.bytes@,
        }
    }

    /// The `DH2Q` context of this request.
    pub fn context(&self) -> (c: CreateContext)
        ensures
            c@ == self.spec_context(),
            c@.data.len() == 32,
            c@.data.subrange(16, 32) == self.create_guid.bytes@,
    {
        let mut data: Vec<u8> = Vec::new();
        bytes::put_le(&mut data, self.timeout_ms as u64, 4);
        bytes::put_le(&mut data, flags_of(self.persistent) as u64, 4);
        bytes::put_zeros(&mut data, 8);
        bytes::put_bytes(&mut data, &self.create_guid.bytes);
        proof {
            self.lemma_layout();
        }
        assert(data@ =~= self.spec_context().data);
        CreateContext::new(NAME_DH2Q, data)
    }

    /// Where the guid stands, and that the context fits in a chain.
    pub proof fn lemma_layout(self)
        ensures
            self.spec_context().data.len() == 32,
            self.spec_context().data.subrange(16, 32) == self.create_guid.bytes@,
            fits(self.spec_context()),
    {
        bytes::lemma_le_bytes_len(self.timeout_ms as nat, 4);
        bytes::lemma_le_bytes_len(flags_word(self.persistent), 4);
        assert(self.spec_context().data.subrange(16, 32) =~= self.create_guid.bytes@);
    }
}

/// A claim on an open that outlived its connection.
#[derive(Debug, Clone, Copy, PartialEq, Eq)]
pub struct DurableReconnectV2 {
    /// The handle as the dead session knew it.
    pub file_id: FileId,
    /// The guid the open was made with.
    pub create_guid: Guid,
    pub persistent: bool,
}

impl DurableReconnectV2 {
    /// The two halves of the old handle, guid, flags.
    pub open spec fn spec_context(self) -> ContextView {
        ContextView {
            name: NAME_DH2C@,
            data: bytes::le_bytes(self.file_id.persistent as nat, 8) + bytes::le_bytes(
                self.file_id.volatile as nat,
                8,
            ) + self.create_guid.bytes@ + bytes::le_bytes(flags_word(self.persistent), 4),
        }
    }

    /// The `DH2C` context of this claim.
    pub fn context(&self) -> (c: CreateContext)
        ensures
            c@ == self.spec_context(),
            c@.data.len() == 36,
            c@.data.subrange(16, 32) == self.create_guid.bytes@,
            bytes::field(c@.data, 0, 8) == self.file_id.persistent,
            bytes::field(c@.data, 8, 8) == self.file_id.volatile,
    {
        let mut data: Vec<u8> = Vec::new();
        bytes::put_le(&mut data, self.file_id.persistent, 8);
        bytes::put_le(&mut data, self.file_id.volatile, 8);
        bytes::put_bytes(&mut data, &self.create_guid.bytes);
        bytes::put_le(&mut data, flags_of(self.persistent) as u64, 4);
        proof {
            self.lemma_layout();
        }
        assert(data@ =~= self.spec_context().data);
        CreateContext::new(NAME_DH2C, data)
    }

    /// Where the old handle and the guid stand, and that the context fits in a chain.
    pub proof fn lemma_layout(self)
        ensures
            self.spec_context().data.len() == 36,
            self.spec_context().data.subrange(16, 32) == self.create_guid.bytes@,
            bytes::field(self.spec_context().data, 0, 8) == self.file_id.persistent,
            bytes::field(self.spec_context().data, 8, 8) == self.file_id.volatile,
            fits(self.spec_context()),
    {
        let data = self.spec_context().data;
        let f0 = bytes::le_bytes(self.file_id.persistent as nat, 8);
        let f1 = bytes::le_bytes(self.file_id.volatile as nat, 8);
        let f2 = self.create_guid.bytes@;
        let f3 = bytes::le_bytes(flags_word(self.persistent), 4);
        bytes::lemma_pow256();
        bytes::lemma_le_bytes_len(self.file_id.persistent as nat, 8);
        bytes::lemma_le_bytes_len(self.file_id.volatile as nat, 8);
        bytes::lemma_le_bytes_len(flags_word(self.persistent), 4);
        assert(data.subrange(16, 32) =~= f2);
        bytes::lemma_field_written(Seq::empty(), self.file_id.persistent as nat, 8, f1 + f2 + f3);
        assert(data =~= Seq::<u8>::empty() + f0 + (f1 + f2 + f3));
        bytes::lemma_field_written(f0, self.file_id.volatile as nat, 8, f2 + f3);
        assert(data =~= f0 + f1 + (f2 + f3));
    }
}

/// What the server promised about a durable open.
#[derive(Debug, Clone, Copy, PartialEq, Eq, Structural)]
pub struct DurableGrant {
    /// How long the server holds the open after a disconnect.
    pub timeout_ms: u32,
    pub persistent: bool,
}

impl DurableGrant {
    /// The promise in the data of a `DH2Q` answer, if there is room for one.
    pub open spec fn spec_from(data: Seq<u8>) -> Option<DurableGrant> {
        if data.len() < 8 {
            None
        } else {
            Some(
                DurableGrant {
                    timeout_ms: bytes::field(data, 0, 4) as u32,
                    persistent: bytes::field(data, 4, 4) / 2 % 2 == 1,
                },
            )
        }
    }

    /// Reads the data of a `DH2Q` answer.
    pub fn from_bytes(data: &[u8]) -> (grant: Result<DurableGrant, Error>)
        ensures
            match grant {
                Ok(g) => DurableGrant::spec_from(data@) == Some(g),
                Err(e) => DurableGrant::spec_from(data@) is None && e == Error::InvalidData,
            },
    {
        if data.len() < 8 {
            return Err(Error::InvalidData);
        }
        let timeout_ms: u64 = bytes::get_le(data, 0, 4);
        let flags: u64 = bytes::get_le(data, 4, 4);
        proof {
            bytes::lemma_pow256();
        }
        Ok(DurableGrant { timeout_ms: timeout_ms as u32, persistent: flags / 2 % 2 == 1 })
    }
}

/// A file's identity on the server's disk.
#[derive(Debug, Clone, Copy, PartialEq, Eq, Structural)]
pub struct OnDiskId {
    pub disk_file_id: u64,
    pub volume_id: u64,
}

impl OnDiskId {
    /// The question, which carries no data.
    pub open spec fn spec_request() -> ContextView {
        ContextView { name: NAME_QFID@, data: Seq::empty() }
    }

    /// The `QFid` context that asks for the identity.
    pub fn request() -> (c: CreateContext)
        ensures
            c@ == OnDiskId::spec_request(),
    {
        CreateContext::new(NAME_QFID, Vec::new())
    }

    /// The identity in the data of a `QFid` answer: file, volume, sixteen reserved bytes.
    pub open spec fn spec_from(data: Seq<u8>) -> Option<OnDiskId> {
        if data.len() < 32 {
            None
        } else {
            Some(
                OnDiskId {
                    disk_file_id: bytes::field(data, 0, 8) as u64,
                    volume_id: bytes::field(data, 8, 8) as u64,
                },
            )
        }
    }

    /// Reads the data of a `QFid` answer.
    pub fn from_bytes(data: &[u8]) -> (id: Result<OnDiskId, Error>)
        ensures
            match id {
                Ok(i) => OnDiskId::spec_from(data@) == Some(i),
                Err(e) => OnDiskId::spec_from(data@) is None && e == Error::InvalidData,
            },
    {
        if data.len() < 32 {
            return Err(Error::InvalidData);
        }
        Ok(
            OnDiskId {
                disk_file_id: bytes::get_le(data, 0, 8),
                volume_id: bytes::get_le(data, 8, 8),
            },
        )
    }
}

// ── Laws of the chain ──────────────────────────────────────────────────────

/// Which contexts a chain can carry: the name's padded length, and the whole entry's, must leave
/// the length fields room.
pub proof fn law_which_contexts_fit(c: ContextView)
    ensures
        fits(c) <==> c.name.len() <= 0xFFE8 && 16 + (c.name.len() + 7) / 8 * 8 + c.data.len()
            <= 0xFFFF_FFF8,
{
}

/// Where everything stands in a chain: the fields and the name at the front, the data at the next
/// multiple of eight behind the name, the next entry at the next multiple of eight behind the data.
/// No contexts, no bytes.
#[verifier::spinoff_prover]
#[verifier::rlimit(60)]
pub proof fn law_chain_layout(contexts: Seq<ContextView>)
    requires
        all_fit(contexts),
    ensures
        contexts.len() == 0 ==> packed(contexts).len() == 0,
        contexts.len() > 0 ==> ({
            let c = contexts[0];
            let chain = packed(contexts);
            let next = bytes::field(chain, 0, 4) as int;
            let data_at = bytes::field(chain, 10, 2) as int;
            &&& bytes::field(chain, 4, 2) == 16
            &&& bytes::field(chain, 6, 2) == c.name.len()
            &&& bytes::field(chain, 8, 2) == 0
            &&& chain.subrange(16, 16 + c.name.len() as int) == c.name
            &&& 16 + c.name.len() <= data_at < 16 + c.name.len() + 8
            &&& data_at % 8 == 0
            &&& bytes::field(chain, 12, 4) == c.data.len()
            &&& chain.subrange(data_at, data_at + c.data.len()) == c.data
            &&& contexts.len() == 1 ==> next == 0 && chain.len() == data_at + c.data.len()
            &&& contexts.len() > 1 ==> ({
                &&& next % 8 == 0
                &&& data_at + c.data.len() <= next < data_at + c.data.len() + 8
                &&& chain.skip(next) == packed(contexts.drop_first())
            })
        }),
{
    if contexts.len() > 0 {
        let c = contexts[0];
        let chain = packed(contexts);
        let (next, after) = if contexts.len() == 1 {
            (0nat, Seq::<u8>::empty())
        } else {
            let next = bytes::pad8(entry_len(c)) as nat;
            (
                next,
                bytes::zeros((next - entry_len(c)) as nat) + packed(contexts.drop_first()),
            )
        };
        lemma_entry_len(c, next);
        lemma_entry_fields(c, next, after);
        assert(chain =~= entry(c, next) + after);
        if contexts.len() > 1 {
            assert(chain.skip(next as int) =~= packed(contexts.drop_first()));
        }
    }
}

/// Wherever in the chain an entry says its name and data are, that is where they are read, and the
/// entry that follows is where it says.
#[verifier::spinoff_prover]
#[verifier::rlimit(60)]
pub proof fn law_entries_are_read_where_they_say(
    chain: Seq<u8>,
    name_at: nat,
    name: Seq<u8>,
    data_at: nat,
    data: Seq<u8>,
    next: nat,
)
    requires
        16 <= chain.len(),
        bytes::field(chain, 0, 4) == next,
        bytes::field(chain, 4, 2) == name_at,
        bytes::field(chain, 6, 2) == name.len(),
        bytes::field(chain, 10, 2) == data_at,
        bytes::field(chain, 12, 4) == data.len(),
        name_at + name.len() <= chain.len(),
        data_at + data.len() <= chain.len(),
        chain.subrange(name_at as int, (name_at + name.len()) as int) == name,
        chain.subrange(data_at as int, (data_at + data.len()) as int) == data,
    ensures
        next == 0 ==> parsed(chain) == Some(seq![ContextView { name, data }]),
        next > chain.len() ==> parsed(chain) is None,
        0 < next <= chain.len() ==> {
            &&& chain.len() - next < 16 ==> parsed(chain) is None
            &&& chain.len() - next >= 16 ==> match parsed(chain.skip(next as int)) {
                Some(rest) => parsed(chain) == Some(seq![ContextView { name, data }] + rest),
                None => parsed(chain) is None,
            }
        },
{
}

/// A chain of fewer than sixteen bytes, or whose first name or data reaches past its end, is no
/// chain. No bytes are no contexts.
pub proof fn law_malformed_entries_are_refused(chain: Seq<u8>)
    ensures
        chain.len() == 0 ==> parsed(chain) == Some(Seq::<ContextView>::empty()),
        0 < chain.len() < 16 ==> parsed(chain) is None,
        chain.len() >= 16 && bytes::field(chain, 4, 2) + bytes::field(chain, 6, 2) > chain.len()
            ==> parsed(chain) is None,
        chain.len() >= 16 && bytes::field(chain, 10, 2) + bytes::field(chain, 12, 4) > chain.len()
            ==> parsed(chain) is None,
{
}

/// What is found is the data of the first context of that name, and nothing is found only if no
/// context has the name.
pub proof fn law_found_is_the_first(contexts: Seq<ContextView>, name: Seq<u8>)
    ensures
        match found(contexts, name) {
            Some(data) => exists|i: int|
                0 <= i < contexts.len() && #[trigger] contexts[i] == (ContextView { name, data }) && (
                forall|j: int| 0 <= j < i ==> (#[trigger] contexts[j]).name != name),
            None => forall|i: int| 0 <= i < contexts.len() ==> (#[trigger] contexts[i]).name != name,
        },
    decreases contexts.len(),
{
    if contexts.len() > 0 {
        if contexts[0].name == name {
            assert(contexts[0] == (ContextView { name, data: contexts[0].data }));
        } else {
            let rest = contexts.drop_first();
            law_found_is_the_first(rest, name);
            match found(rest, name) {
                Some(data) => {
                    let i = choose|i: int|
                        0 <= i < rest.len() && #[trigger] rest[i] == (ContextView { name, data })
                            && (forall|j: int| 0 <= j < i ==> (#[trigger] rest[j]).name != name);
                    assert(contexts[i + 1] == (ContextView { name, data }));
                    assert forall|j: int| 0 <= j < i + 1 implies (#[trigger] contexts[j]).name
                        != name by {
                        if j > 0 {
                            assert(rest[j - 1] == contexts[j]);
                        }
                    }
                },
                None => {
                    assert forall|i: int| 0 <= i < contexts.len() implies (
                    #[trigger] contexts[i]).name != name by {
                        if i > 0 {
                            assert(rest[i - 1] == contexts[i]);
                        }
                    }
                },
            }
        }
    }
}

// ── Laws of the durable contexts ───────────────────────────────────────────

/// Every field of a request for durability stands at its place: the timeout, the flags (2 for
/// persistent), eight reserved bytes, the guid.
pub proof fn law_durable_request_layout(request: DurableRequestV2)
    ensures
        ({
            let c = request.spec_context();
            &&& c.name == seq![0x44u8, 0x48, 0x32, 0x51]
            &&& c.data.len() == 32
            &&& bytes::field(c.data, 0, 4) == request.timeout_ms
            &&& bytes::field(c.data, 4, 4) == (if request.persistent {
                2int
            } else {
                0int
            })
            &&& bytes::field(c.data, 8, 8) == 0
            &&& c.data.subrange(16, 32) == request.create_guid.bytes@
        }),
{
    let data = request.spec_context().data;
    let f0 = bytes::le_bytes(request.timeout_ms as nat, 4);
    let f1 = bytes::le_bytes(flags_word(request.persistent), 4);
    let f2 = bytes::zeros(8);
    let f3 = request.create_guid.bytes@;
    request.lemma_layout();
    bytes::lemma_pow256();
    bytes::lemma_le_bytes_len(request.timeout_ms as nat, 4);
    bytes::lemma_le_bytes_len(flags_word(request.persistent), 4);
    bytes::lemma_field_written(Seq::empty(), request.timeout_ms as nat, 4, f1 + f2 + f3);
    assert(data =~= Seq::<u8>::empty() + f0 + (f1 + f2 + f3));
    bytes::lemma_field_written(f0, flags_word(request.persistent), 4, f2 + f3);
    assert(data =~= f0 + f1 + (f2 + f3));
    lemma_zero_bytes(8);
    bytes::lemma_field_written(f0 + f1, 0, 8, f3);
    assert(data =~= f0 + f1 + bytes::le_bytes(0, 8) + f3);
    assert(NAME_DH2Q@ =~= seq![0x44u8, 0x48, 0x32, 0x51]);
}

proof fn lemma_zero_bytes(n: nat)
    ensures
        bytes::le_bytes(0, n) == bytes::zeros(n),
    decreases n,
{
    if n > 0 {
        lemma_zero_bytes((n - 1) as nat);
    }
    assert(bytes::le_bytes(0, n) =~= bytes::zeros(n));
}

/// Every field of a claim stands at its place: the two halves of the old handle, the guid, the
/// flags (2 for persistent).
pub proof fn law_durable_reconnect_layout(claim: DurableReconnectV2)
    ensures
        ({
            let c = claim.spec_context();
            &&& c.name == seq![0x44u8, 0x48, 0x32, 0x43]
            &&& c.data.len() == 36
            &&& bytes::field(c.data, 0, 8) == claim.file_id.persistent
            &&& bytes::field(c.data, 8, 8) == claim.file_id.volatile
            &&& c.data.subrange(16, 32) == claim.create_guid.bytes@
            &&& bytes::field(c.data, 32, 4) == (if claim.persistent {
                2int
            } else {
                0int
            })
        }),
{
    let data = claim.spec_context().data;
    claim.lemma_layout();
    bytes::lemma_pow256();
    let f0 = bytes::le_bytes(claim.file_id.persistent as nat, 8);
    let f1 = bytes::le_bytes(claim.file_id.volatile as nat, 8);
    let f2 = claim.create_guid.bytes@;
    bytes::lemma_le_bytes_len(claim.file_id.persistent as nat, 8);
    bytes::lemma_le_bytes_len(claim.file_id.volatile as nat, 8);
    bytes::lemma_field_written(f0 + f1 + f2, flags_word(claim.persistent), 4, Seq::empty());
    assert(data =~= f0 + f1 + f2 + bytes::le_bytes(flags_word(claim.persistent), 4)
        + Seq::<u8>::empty());
    assert(NAME_DH2C@ =~= seq![0x44u8, 0x48, 0x32, 0x43]);
}

/// The question for the file's identity is the name alone.
pub proof fn law_identity_question()
    ensures
        OnDiskId::spec_request().name == seq![0x51u8, 0x46, 0x69, 0x64],
        OnDiskId::spec_request().data.len() == 0,
{
    assert(NAME_QFID@ =~= seq![0x51u8, 0x46, 0x69, 0x64]);
}

/// A grant reads back as the server wrote it, whatever follows: every timeout, and persistent
/// exactly when the flags hold the bit of value 2. Less than eight bytes are no grant.
pub proof fn law_grant_reads_back(timeout_ms: u32, flags: u32, after: Seq<u8>, short: Seq<u8>)
    requires
        short.len() < 8,
    ensures
        DurableGrant::spec_from(
            bytes::le_bytes(timeout_ms as nat, 4) + bytes::le_bytes(flags as nat, 4) + after,
        ) == Some(DurableGrant { timeout_ms, persistent: flags & 2 == 2 }),
        DurableGrant::spec_from(short) is None,
{
    let f0 = bytes::le_bytes(timeout_ms as nat, 4);
    let f1 = bytes::le_bytes(flags as nat, 4);
    let data = f0 + f1 + after;
    bytes::lemma_pow256();
    bytes::lemma_le_bytes_len(timeout_ms as nat, 4);
    bytes::lemma_le_bytes_len(flags as nat, 4);
    bytes::lemma_field_written(Seq::empty(), timeout_ms as nat, 4, f1 + after);
    assert(data =~= Seq::<u8>::empty() + f0 + (f1 + after));
    bytes::lemma_field_written(f0, flags as nat, 4, after);
    assert((flags & 2 == 2) <==> (flags / 2 % 2 == 1)) by (bit_vector);
}

/// An identity reads back as the server wrote it, all sixteen bytes of it, whatever the reserved
/// bytes and what follows them. Less than thirty-two bytes are no identity.
pub proof fn law_identity_reads_back(id: OnDiskId, after: Seq<u8>, short: Seq<u8>)
    requires
        after.len() >= 16,
        short.len() < 32,
    ensures
        OnDiskId::spec_from(
            bytes::le_bytes(id.disk_file_id as nat, 8) + bytes::le_bytes(id.volume_id as nat, 8)
                + after,
        ) == Some(id),
        OnDiskId::spec_from(short) is None,
{
    let f0 = bytes::le_bytes(id.disk_file_id as nat, 8);
    let f1 = bytes::le_bytes(id.volume_id as nat, 8);
    let data = f0 + f1 + after;
    bytes::lemma_pow256();
    bytes::lemma_le_bytes_len(id.disk_file_id as nat, 8);
    bytes::lemma_le_bytes_len(id.volume_id as nat, 8);
    bytes::lemma_field_written(Seq::empty(), id.disk_file_id as nat, 8, f1 + after);
    assert(data =~= Seq::<u8>::empty() + f0 + (f1 + after));
    bytes::lemma_field_written(f0, id.volume_id as nat, 8, after);
}

/// Two answers name the same file exactly when their first sixteen bytes are the same.
pub proof fn law_identities_differ_with_their_bytes(a: Seq<u8>, b: Seq<u8>)
    requires
        a.len() >= 32,
        b.len() >= 32,
    ensures
        OnDiskId::spec_from(a) is Some,
        OnDiskId::spec_from(a) == OnDiskId::spec_from(b) <==> a.take(16) == b.take(16),
{
    bytes::lemma_pow256();
    let (a0, a1) = (a.subrange(0, 8), a.subrange(8, 16));
    let (b0, b1) = (b.subrange(0, 8), b.subrange(8, 16));
    bytes::lemma_le_value_bound(a0);
    bytes::lemma_le_value_bound(a1);
    bytes::lemma_le_value_bound(b0);
    bytes::lemma_le_value_bound(b1);
    assert(a.take(16) =~= a0 + a1);
    assert(b.take(16) =~= b0 + b1);
    if OnDiskId::spec_from(a) == OnDiskId::spec_from(b) {
        bytes::law_reading_loses_nothing(a0, b0);
        bytes::law_reading_loses_nothing(a1, b1);
    }
    if a.take(16) == b.take(16) {
        assert(a0 =~= a.take(16).subrange(0, 8));
        assert(a1 =~= a.take(16).subrange(8, 16));
        assert(b0 =~= b.take(16).subrange(0, 8));
        assert(b1 =~= b.take(16).subrange(8, 16));
    }
}

/// A list of contexts is seen context by context.
pub proof fn law_views(contexts: Seq<CreateContext>)
    ensures
        views(contexts).len() == contexts.len(),
        forall|i: int|
            0 <= i < contexts.len() ==> (#[trigger] views(contexts)[i]).name == contexts[i].name@
                && views(contexts)[i].data == contexts[i].data@,
{
}

} // verus!
