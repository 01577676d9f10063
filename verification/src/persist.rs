//! Durable persistence: the whole store to and from a compact binary
//! blob and a human-inspectable textual form.  Writing the bytes to disk
//! is the caller's business; the codecs here are pure.

use vstd::prelude::*;
use crate::EvoError;
use crate::codec_bin::{blob_bytes, parse_blob, bytes_to_items, items_to_bytes, pow256};
use crate::codec_text::{text_chars, parse_text, text_to_items, items_to_text};
use crate::items::{store_items, parse_store, IModel};
use crate::items_exec::items_to_store;
use crate::store::{EvoCoreContextSystem, StoreModel, store_wf};
use crate::trusted::{chars_to_string, string_to_chars};

verus! {

/// The binary encoding of a store.
pub open spec fn binary_of(m: StoreModel) -> Seq<u8> {
    blob_bytes(store_items(m))
}

/// What a byte blob decodes to, before validation.
pub open spec fn binary_parsed(b: Seq<u8>) -> Option<StoreModel> {
    match parse_blob(b) {
        Some(items) => parse_store(items),
        None => None,
    }
}

/// The textual encoding of a store.
pub open spec fn text_of(m: StoreModel) -> Seq<char> {
    text_chars(store_items(m))
}

/// What a text decodes to, before validation.
pub open spec fn text_parsed(t: Seq<char>) -> Option<StoreModel> {
    match parse_text(t) {
        Some(items) => parse_store(items),
        None => None,
    }
}

/// A decoded store is accepted when it parses and satisfies the store
/// invariant on this machine.
pub open spec fn load_ok(m: Option<StoreModel>) -> bool {
    &&& m is Some
    &&& store_wf(m->Some_0)
    &&& m->Some_0.param_count <= usize::MAX
}

impl EvoCoreContextSystem {
    /// Serialize the store to its compact binary form.
    pub fn save_binary(&self) -> (r: Vec<u8>)
        ensures
            r@ == binary_of(self@),
    {
        let items = self.to_items();
        items_to_bytes(&items)
    }

    /// Rebuild a store from its binary form.  Fails with `CorruptData`
    /// exactly when the bytes do not parse as a current-version store, or
    /// parse to one that breaks the store invariant or exceeds the
    /// machine's parameter-count range.
    pub fn load_binary(bytes: &Vec<u8>) -> (r: Result<EvoCoreContextSystem, EvoError>)
        ensures
            r is Ok <==> load_ok(binary_parsed(bytes@)),
            r is Err ==> r->Err_0 == EvoError::CorruptData,
            r is Ok ==> r->Ok_0@ == binary_parsed(bytes@)->Some_0 && store_wf(r->Ok_0@),
    {
        match bytes_to_items(bytes) {
            Some(items) => match items_to_store(&items) {
                Some(s) => Ok(s),
                None => Err(EvoError::CorruptData),
            },
            None => Err(EvoError::CorruptData),
        }
    }

    /// Serialize the store to its self-describing textual form.
    pub fn save(&self) -> (r: String)
        ensures
            r@ == text_of(self@),
    {
        let items = self.to_items();
        let cs = items_to_text(&items);
        chars_to_string(&cs)
    }

    /// Rebuild a store from its textual form.  Fails with `SchemaError`
    /// exactly when the text does not parse as a current-version store,
    /// or parses to one that breaks the store invariant or exceeds the
    /// machine's parameter-count range.
    pub fn load(text: &str) -> (r: Result<EvoCoreContextSystem, EvoError>)
        ensures
            r is Ok <==> load_ok(text_parsed(text@)),
            r is Err ==> r->Err_0 == EvoError::SchemaError,
            r is Ok ==> r->Ok_0@ == text_parsed(text@)->Some_0 && store_wf(r->Ok_0@),
    {
        let cs = string_to_chars(text);
        match text_to_items(&cs) {
            Some(items) => match items_to_store(&items) {
                Some(s) => Ok(s),
                None => Err(EvoError::SchemaError),
            },
            None => Err(EvoError::SchemaError),
        }
    }
}

/// The machine-size side conditions under which a store's persisted forms
/// are loadable again: every count and string fits the fixed-width length
/// fields.  Any store held in memory satisfies them.
pub open spec fn persistable(m: StoreModel) -> bool {
    &&& m.param_count <= usize::MAX
    &&& m.dims.len() <= u64::MAX
    &&& m.records.len() <= u64::MAX
    &&& forall|i: int| 0 <= i < m.dims.len() ==> (#[trigger] m.dims[i].values).len() <= u64::MAX
    &&& store_items(m).len() <= u64::MAX
    &&& forall|i: int|
        0 <= i < store_items(m).len() ==> ((#[trigger] store_items(m)[i]) is Str
            ==> store_items(m)[i]->Str_0.len() <= u64::MAX)
}

/// Round trip, binary: loading what was saved gives back the same store,
/// dimension for dimension, record for record, statistic for statistic.
pub proof fn lemma_binary_round_trip(m: StoreModel)
    requires
        store_wf(m),
        persistable(m),
    ensures
        load_ok(binary_parsed(binary_of(m))),
        binary_parsed(binary_of(m)) == Some(m),
{
    let items = store_items(m);
    crate::codec_bin::lemma_pow256_widths();
    crate::codec_bin::lemma_parse_blob(items);
    lemma_store_parse(m);
}

/// Round trip, textual: loading what was saved gives back the same
/// store.
pub proof fn lemma_text_round_trip(m: StoreModel)
    requires
        store_wf(m),
        persistable(m),
    ensures
        load_ok(text_parsed(text_of(m))),
        text_parsed(text_of(m)) == Some(m),
{
    let items = store_items(m);
    crate::codec_text::lemma_parse_text(items);
    lemma_store_parse(m);
}

/// The flattening side of both round trips.
proof fn lemma_store_parse(m: StoreModel)
    requires
        store_wf(m),
        persistable(m),
    ensures
        parse_store(store_items(m)) == Some(m),
{
    assert forall|i: int| 0 <= i < m.records.len() implies
        (#[trigger] m.records[i].stats).len() == m.param_count by {
        assert(crate::store::rec_wf(m.records[i], m.param_count));
    }
    assert(m.param_count <= u64::MAX);
    crate::items::lemma_parse_store_items(m);
}

} // verus!
