//! The storage reader's parse step: byte-order-mark stripping and a JSON
//! well-formedness check over the bytes read from the remote store.

use vstd::prelude::*;

verus! {

#[verifier::external_type_specification]
#[verifier::external_body]
pub struct ExValue(serde_json::Value);

/// Whether `serde_json` accepts a byte sequence as a JSON document; the
/// verdict depends on the bytes alone.
pub uninterp spec fn json_accepts(data: Seq<u8>) -> bool;

/// Relies on serde_json::from_slice::<Value>: it returns `Ok` exactly when
/// the bytes form a JSON document, and its verdict is a function of the
/// bytes alone.
#[verifier::external_body]
fn parse_json(data: &Vec<u8>) -> (r: Option<serde_json::Value>)
    ensures
        r is Some <==> json_accepts(data@),
{
    serde_json::from_slice::<serde_json::Value>(data.as_slice()).ok()
}

/// The UTF-8 byte-order mark.
pub open spec fn bom() -> Seq<u8> {
    seq![0xefu8, 0xbbu8, 0xbfu8]
}

/// A document with a leading byte-order mark loses it; any other document is
/// left unchanged.
pub open spec fn strip_bom_spec(data: Seq<u8>) -> Seq<u8> {
    if data.len() >= 3 && data.subrange(0, 3) == bom() {
        data.skip(3)
    } else {
        data
    }
}

/// Removes a leading UTF-8 byte-order mark, if present.
pub fn strip_bom(data: Vec<u8>) -> (r: Vec<u8>)
    ensures
        r@ == strip_bom_spec(data@),
{
    if data.len() >= 3 && data[0] == 0xef && data[1] == 0xbb && data[2] == 0xbf {
        proof {
            assert(data@.subrange(0, 3) =~= bom());
        }
        let mut rest: Vec<u8> = Vec::new();
        let mut i: usize = 3;
        while i < data.len()
            invariant
                3 <= i <= data@.len(),
                rest@ =~= data@.subrange(3, i as int),
            decreases data@.len() - i,
        {
            rest.push(data[i]);
            i = i + 1;
        }
        proof {
            assert(rest@ =~= data@.skip(3));
        }
        rest
    } else {
        proof {
            if data@.len() >= 3 && data@.subrange(0, 3) == bom() {
                assert(data@.subrange(0, 3)[0] == data@[0]);
                assert(data@.subrange(0, 3)[1] == data@[1]);
                assert(data@.subrange(0, 3)[2] == data@[2]);
                assert(false);
            }
        }
        data
    }
}

/// Outcome of the storage connectivity check; none of its variants aborts
/// startup.
pub enum StorageDiagnostic {
    /// The remote read itself failed.
    ReadFailed,
    /// The bytes were read but do not form a JSON document.
    MalformedJson,
    /// The bytes parse as JSON; the parsed value is carried for logging.
    Connected(serde_json::Value),
}

/// Classifies the outcome of the remote read: a missing document is a read
/// failure, and bytes are parsed as JSON only after byte-order-mark
/// stripping.
pub fn storage_check(read_result: Option<Vec<u8>>) -> (r: StorageDiagnostic)
    ensures
        match read_result {
            None => r is ReadFailed,
            Some(data) => (r is Connected <==> json_accepts(strip_bom_spec(data@))) && (
            r is MalformedJson <==> !json_accepts(strip_bom_spec(data@))),
        },
{
    match read_result {
        None => StorageDiagnostic::ReadFailed,
        Some(data) => {
            let stripped = strip_bom(data);
            match parse_json(&stripped) {
                Some(value) => StorageDiagnostic::Connected(value),
                None => StorageDiagnostic::MalformedJson,
            }
        },
    }
}

/// A byte-order-mark prefix is stripped before parsing: prefixing any
/// document with the mark leaves the parse step's input unchanged.
pub proof fn lemma_bom_prefix_stripped(rest: Seq<u8>)
    ensures
        strip_bom_spec(bom() + rest) == rest,
{
    assert((bom() + rest).subrange(0, 3) =~= bom());
    assert((bom() + rest).skip(3) =~= rest);
}

/// A document that does not begin with the byte-order mark reaches the parse
/// step unchanged.
pub proof fn lemma_no_bom_unchanged(data: Seq<u8>)
    requires
        data.len() < 3 || data.subrange(0, 3) != bom(),
    ensures
        strip_bom_spec(data) == data,
{
}

} // verus!
