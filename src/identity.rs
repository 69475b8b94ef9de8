//! Validator keys, compared byte for byte.

use vstd::prelude::*;
use solana_sdk::pubkey::Pubkey;
use std::str::FromStr;

verus! {

/// What `Pubkey::from_str` decodes a base58 text into: the 32 key bytes, or
/// nothing when the text is not a well-formed key.
pub uninterp spec fn pubkey_decoding(text: Seq<char>) -> Option<Seq<u8>>;

/// The base58 text that `Pubkey`'s `Display` writes for the given key bytes.
pub uninterp spec fn pubkey_text(key: Seq<u8>) -> Seq<char>;

/// A validator's node key (or any other ledger address): 32 bytes compared
/// byte for byte.
#[derive(Clone, Copy, Debug, PartialEq, Eq, Hash)]
pub struct Identity {
    pub bytes: [u8; 32],
}

impl View for Identity {
    type V = Seq<u8>;

    open spec fn view(&self) -> Seq<u8> {
        self.bytes@
    }
}

impl Identity {
    pub fn new(bytes: [u8; 32]) -> (r: Identity)
        ensures
            r@ == bytes@,
    {
        Identity { bytes }
    }

    /// Byte-for-byte equality of two keys.
    pub fn same(&self, other: &Identity) -> (r: bool)
        ensures
            r == (self@ == other@),
    {
        let mut i: usize = 0;
        while i < 32
            invariant
                0 <= i <= 32,
                self@.len() == 32,
                other@.len() == 32,
                forall|j: int| 0 <= j < i ==> self@[j] == other@[j],
            decreases 32 - i,
        {
            if self.bytes[i] != other.bytes[i] {
                return false;
            }
            i = i + 1;
        }
        assert(self@ =~= other@);
        true
    }
}

/// Whether `id` is one of the keys in `ids`.
pub open spec fn listed(ids: Seq<Identity>, id: Seq<u8>) -> bool {
    exists|i: int| 0 <= i < ids.len() && #[trigger] ids[i]@ == id
}

/// Linear membership test by key bytes.
pub fn contains_identity(ids: &Vec<Identity>, id: &Identity) -> (r: bool)
    ensures
        r == listed(ids@, id@),
{
    let mut i: usize = 0;
    while i < ids.len()
        invariant
            0 <= i <= ids@.len(),
            forall|j: int| 0 <= j < i ==> #[trigger] ids@[j]@ != id@,
        decreases ids@.len() - i,
    {
        if ids[i].same(id) {
            return true;
        }
        i = i + 1;
    }
    false
}

/// Relies on `Pubkey::from_str` (solana-sdk): decodes a base58 key text.
#[verifier::external_body]
pub(crate) fn parse_identity(text: &str) -> (r: Option<Identity>)
    ensures
        match r {
            Some(id) => pubkey_decoding(text@) == Some(id@),
            None => pubkey_decoding(text@) is None,
        },
{
    Pubkey::from_str(text).ok().map(|key| Identity { bytes: key.to_bytes() })
}

/// Relies on `Display for Pubkey` (solana-sdk): the base58 text of a key.
#[verifier::external_body]
pub(crate) fn identity_text(id: &Identity) -> (r: String)
    ensures
        r@ == pubkey_text(id@),
{
    Pubkey::new_from_array(id.bytes).to_string()
}

} // verus!
