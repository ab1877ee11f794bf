//! The crypto engine: it owns the master key, seals a plaintext into an
//! envelope under a fresh initialization vector, and opens envelopes again.
//!
//! An envelope is the base64 text of the initialization vector followed by
//! the ciphertext of the plaintext's UTF-8 bytes.

use crate::cipher::{cbc_ciphertext, cbc_decrypt, cbc_encrypt, cbc_plaintext, IV_LENGTH, KEY_LENGTH};
use crate::encoding::{base64_bytes, base64_decode, base64_encode, base64_text, string_from_utf8};
use crate::entropy::{fill_bytes, seeded_from_entropy};
use crate::snapshot::{as_map, Pair, Snapshot};
#[allow(deprecated)]
use rand::ChaChaRng;
use vstd::prelude::*;
use vstd::slice::slice_to_vec;
use vstd::utf8::{decode_utf8, encode_utf8, encode_utf8_decode_utf8, encode_utf8_valid_utf8, valid_utf8};

verus! {

/// The key of the snapshot under which the master key is kept, as base64.
pub const AES_PREFERENCES_KEY: &'static str = "crypto_key";

/// Why the engine could not do what was asked.
#[derive(Debug, Clone, Copy, PartialEq, Eq, Structural)]
pub enum CryptoError {
    /// An envelope could not be opened, a plaintext could not be sealed, or
    /// no source of randomness was at hand.
    Failed,
    /// The key handed over does not have the length of a master key.
    WrongKeyLength,
}

/// The envelope of `plain` under `key` and the initialization vector `iv`.
pub open spec fn sealed(key: Seq<u8>, iv: Seq<u8>, plain: Seq<char>) -> Seq<char> {
    base64_text(iv + cbc_ciphertext(key, iv, encode_utf8(plain)))
}

/// Whether `envelope` is an envelope of `plain` under `key` and some
/// initialization vector of the right length.
pub open spec fn seals(key: Seq<u8>, plain: Seq<char>, envelope: Seq<char>) -> bool {
    exists|iv: Seq<u8>| iv.len() == IV_LENGTH && envelope == #[trigger] sealed(key, iv, plain)
}

/// The plaintext that `envelope` opens to under `key`, or `None` where it
/// opens to none: it is not base64, it is shorter than an initialization
/// vector, the cipher rejects it, or what comes out is not text.
pub open spec fn opened(key: Seq<u8>, envelope: Seq<char>) -> Option<Seq<char>> {
    match base64_bytes(envelope) {
        Some(data) => if data.len() < IV_LENGTH {
            None
        } else {
            match cbc_plaintext(
                key,
                data.subrange(0, IV_LENGTH as int),
                data.subrange(IV_LENGTH as int, data.len() as int),
            ) {
                Some(bytes) => if valid_utf8(bytes) {
                    Some(decode_utf8(bytes))
                } else {
                    None
                },
                None => None,
            }
        },
        None => None,
    }
}

/// The master key that a snapshot holds in its reserved slot, or `None`
/// where the slot is empty or does not hold the base64 of 32 bytes.
pub open spec fn stored_master_key(snapshot: Map<Seq<char>, Seq<char>>) -> Option<Seq<u8>> {
    if snapshot.contains_key(AES_PREFERENCES_KEY@) {
        match base64_bytes(snapshot[AES_PREFERENCES_KEY@]) {
            Some(key) => if key.len() == KEY_LENGTH {
                Some(key)
            } else {
                None
            },
            None => None,
        }
    } else {
        None
    }
}

/// The snapshot that holds the master key `key` and nothing else.
pub open spec fn key_only(key: Seq<u8>) -> Map<Seq<char>, Seq<char>> {
    Map::<Seq<char>, Seq<char>>::empty().insert(AES_PREFERENCES_KEY@, base64_text(key))
}

/// How bootstrapping the engine from a snapshot relates the snapshot before
/// and after and the engine's key: a snapshot that holds a master key is
/// kept and its key used; any other is replaced by one that holds only the
/// new key. Either way the snapshot then holds the engine's key.
pub open spec fn bootstrapped(
    before: Map<Seq<char>, Seq<char>>,
    after: Map<Seq<char>, Seq<char>>,
    key: Seq<u8>,
) -> bool {
    &&& key.len() == KEY_LENGTH
    &&& stored_master_key(after) == Some(key)
    &&& match stored_master_key(before) {
        Some(kept) => key == kept && after == before,
        None => after == key_only(key),
    }
}

/// The entries of the snapshot that holds the master key `key` and nothing
/// else.
pub open spec fn key_entry(key: Seq<u8>) -> Seq<Pair> {
    seq![(AES_PREFERENCES_KEY@, base64_text(key))]
}

/// How a bootstrap orders the entries: those of a snapshot that holds a
/// master key stay as they are; else the one entry of the new key is left.
pub open spec fn bootstrapped_entries(before: Seq<Pair>, after: Seq<Pair>, key: Seq<u8>) -> bool {
    if stored_master_key(as_map(before)) is Some {
        after == before
    } else {
        after == key_entry(key)
    }
}

/// An envelope whose bytes are fewer than an initialization vector opens to
/// nothing, whatever the key.
pub proof fn lemma_truncated_envelope_fails(key: Seq<u8>, envelope: Seq<char>)
    requires
        base64_bytes(envelope) matches Some(data) && data.len() < IV_LENGTH,
    ensures
        opened(key, envelope) is None,
{
}

/// A text that is not base64 opens to nothing, whatever the key.
pub proof fn lemma_malformed_envelope_fails(key: Seq<u8>, envelope: Seq<char>)
    requires
        base64_bytes(envelope) is None,
    ensures
        opened(key, envelope) is None,
{
}

/// Bootstrapping from the snapshot that a bootstrap left changes nothing:
/// the snapshot is kept and the same key is used.
pub proof fn lemma_bootstrap_is_stable(
    first: Map<Seq<char>, Seq<char>>,
    second: Map<Seq<char>, Seq<char>>,
    third: Map<Seq<char>, Seq<char>>,
    key: Seq<u8>,
    again: Seq<u8>,
)
    requires
        bootstrapped(first, second, key),
        bootstrapped(second, third, again),
    ensures
        third == second,
        again == key,
{
}

/// A snapshot whose reserved slot holds no master key of the right length
/// loses all its entries in a bootstrap: only the new key is left.
pub proof fn lemma_bootstrap_wipes_without_key(
    before: Map<Seq<char>, Seq<char>>,
    after: Map<Seq<char>, Seq<char>>,
    key: Seq<u8>,
    name: Seq<char>,
)
    requires
        stored_master_key(before) is None,
        bootstrapped(before, after, key),
        name != AES_PREFERENCES_KEY@,
    ensures
        !after.contains_key(name),
        after.dom() == set![AES_PREFERENCES_KEY@],
        key.len() == KEY_LENGTH,
{
    assert(after.dom() =~= set![AES_PREFERENCES_KEY@]);
}

/// The crypto engine.
pub struct Crypto {
    key: Vec<u8>,
    rng: ChaChaRng,
}

impl Crypto {
    #[verifier::type_invariant]
    spec fn key_fits(self) -> bool {
        self.key@.len() == KEY_LENGTH
    }

    /// The master key.
    pub closed spec fn master_key(&self) -> Seq<u8> {
        self.key@
    }

    /// Bootstraps the engine from a snapshot, with a generator seeded from
    /// the system's entropy. Where no entropy is to be had, the snapshot is
    /// left as it was.
    pub fn from_storage(storage: &mut Snapshot) -> (made: Result<Self, CryptoError>)
        ensures
            match made {
                Ok(crypto) => bootstrapped(old(storage)@, final(storage)@, crypto.master_key())
                    && bootstrapped_entries(
                    old(storage).pairs(),
                    final(storage).pairs(),
                    crypto.master_key(),
                ),
                Err(error) => error == CryptoError::Failed && final(storage).pairs() == old(
                    storage,
                ).pairs(),
            },
    {
        match seeded_from_entropy() {
            Ok(rng) => Ok(Self::from_storage_with_rng(storage, rng)),
            Err(_) => Err(CryptoError::Failed),
        }
    }

    /// Bootstraps the engine from a snapshot: a master key that the
    /// snapshot holds is used; else a new one is drawn from `rng`, and the
    /// snapshot is cleared but for that key.
    pub fn from_storage_with_rng(storage: &mut Snapshot, rng: ChaChaRng) -> (crypto: Self)
        ensures
            bootstrapped(old(storage)@, final(storage)@, crypto.master_key()),
            bootstrapped_entries(old(storage).pairs(), final(storage).pairs(), crypto.master_key()),
    {
        let mut rng = rng;
        let mut key: Vec<u8> = match storage.get(AES_PREFERENCES_KEY) {
            Some(text) => match base64_decode(text.as_str()) {
                Some(key) => key,
                None => Vec::new(),
            },
            None => Vec::new(),
        };
        if key.len() != KEY_LENGTH {
            key.resize(KEY_LENGTH, 0);
            fill_bytes(&mut rng, &mut key);
            Self::install_key(storage, key.as_slice());
        }
        Crypto { key, rng }
    }

    /// Clears the snapshot and stores `key` in its reserved slot, as base64.
    pub fn install_key(storage: &mut Snapshot, key: &[u8])
        ensures
            final(storage).pairs() == key_entry(key@),
            final(storage)@ == key_only(key@),
            base64_bytes(final(storage)@[AES_PREFERENCES_KEY@]) == Some(key@),
    {
        storage.clear();
        storage.insert(AES_PREFERENCES_KEY.to_owned(), base64_encode(key));
        assert(storage.pairs() =~= key_entry(key@));
    }

    /// An engine with the given master key, which draws its initialization
    /// vectors from `rng`. The key must have 32 bytes.
    pub fn new(key: &[u8], rng: ChaChaRng) -> (made: Result<Self, CryptoError>)
        ensures
            match made {
                Ok(crypto) => key@.len() == KEY_LENGTH && crypto.master_key() == key@,
                Err(error) => key@.len() != KEY_LENGTH && error == CryptoError::WrongKeyLength,
            },
    {
        if key.len() != KEY_LENGTH {
            return Err(CryptoError::WrongKeyLength);
        }
        Ok(Crypto { key: slice_to_vec(key), rng })
    }

    /// Seals `data` under the master key and the initialization vector
    /// `iv`, which must have 16 bytes. The envelope opens to `data` again.
    pub fn encrypt_with_iv(&self, iv: &[u8], data: &str) -> (envelope: Result<String, CryptoError>)
        ensures
            match envelope {
                Ok(text) => {
                    &&& iv@.len() == IV_LENGTH
                    &&& text@ == sealed(self.master_key(), iv@, data@)
                    &&& opened(self.master_key(), text@) == Some(data@)
                },
                Err(error) => iv@.len() != IV_LENGTH && error == CryptoError::Failed,
            },
    {
        proof {
            use_type_invariant(self);
        }
        let mut encrypted = match cbc_encrypt(self.key.as_slice(), iv, data.as_bytes()) {
            Ok(encrypted) => encrypted,
            Err(_) => {
                return Err(CryptoError::Failed);
            },
        };
        let ghost ciphertext = encrypted@;
        let mut full_data: Vec<u8> = Vec::new();
        full_data.extend_from_slice(iv);
        full_data.append(&mut encrypted);
        let text = base64_encode(full_data.as_slice());
        proof {
            assert(full_data@ =~= iv@ + ciphertext);
            assert(full_data@.subrange(0, IV_LENGTH as int) =~= iv@);
            assert(full_data@.subrange(IV_LENGTH as int, full_data@.len() as int) =~= ciphertext);
            encode_utf8_valid_utf8(data@);
            encode_utf8_decode_utf8(data@);
        }
        Ok(text)
    }

    /// Seals `data` under the master key and an initialization vector drawn
    /// afresh from the generator. The envelope opens to `data` again.
    pub fn encrypt(&mut self, data: &str) -> (envelope: Result<String, CryptoError>)
        ensures
            final(self).master_key() == old(self).master_key(),
            envelope matches Ok(text) && seals(old(self).master_key(), data@, text@) && opened(
                old(self).master_key(),
                text@,
            ) == Some(data@),
    {
        proof {
            use_type_invariant(&*self);
        }
        let mut iv: Vec<u8> = vec![0u8; IV_LENGTH];
        fill_bytes(&mut self.rng, &mut iv);
        let envelope = self.encrypt_with_iv(iv.as_slice(), data);
        proof {
            if envelope is Ok {
                assert(envelope->Ok_0@ == sealed(self.master_key(), iv@, data@));
            }
        }
        envelope
    }

    /// Opens an envelope under the master key.
    pub fn decrypt(&self, data: &str) -> (plain: Result<String, CryptoError>)
        ensures
            match plain {
                Ok(text) => opened(self.master_key(), data@) == Some(text@),
                Err(error) => opened(self.master_key(), data@) is None && error
                    == CryptoError::Failed,
            },
    {
        proof {
            use_type_invariant(self);
        }
        let full_data = match base64_decode(data) {
            Some(full_data) => full_data,
            None => {
                return Err(CryptoError::Failed);
            },
        };
        if full_data.len() < IV_LENGTH {
            return Err(CryptoError::Failed);
        }
        let (iv, encrypted) = full_data.as_slice().split_at(IV_LENGTH);
        let decrypted = match cbc_decrypt(self.key.as_slice(), iv, encrypted) {
            Ok(Ok(decrypted)) => decrypted,
            Ok(Err(_)) => {
                return Err(CryptoError::Failed);
            },
            Err(_) => {
                return Err(CryptoError::Failed);
            },
        };
        match string_from_utf8(decrypted) {
            Ok(text) => Ok(text),
            Err(_) => Err(CryptoError::Failed),
        }
    }
}

} // verus!
