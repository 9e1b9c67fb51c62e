//! Key generation and the four key types.
//!
//! Key material is derived from the context's top-level parameter identity,
//! so every key is bound to the chain it was generated for.  Generating a
//! key several times yields functionally equivalent objects; the model makes
//! them identical, which the contract of key generation allows.  Keys are
//! serializable and, where the original interface offers it, cloneable.

use vstd::prelude::*;

use crate::codec::decode_words;
use crate::codec::decode_words_vec;
use crate::codec::encode_words;
use crate::codec::encode_words_vec;
use crate::codec::lemma_words_roundtrip;
use crate::context::mix64;
use crate::context::mix64_exec;
use crate::context::Context;
use crate::context::ContextV;
use crate::context::ParmsId;
use crate::error::HeError;
use crate::params::clone_u64_vec;

verus! {

/// Stream tag of a serialized public key.
pub const WKIND_PUBLIC_KEY: u64 = 4;

/// Stream tag of a serialized secret key.
pub const WKIND_SECRET_KEY: u64 = 5;

/// Stream tag of serialized relinearization keys.
pub const WKIND_RELIN_KEYS: u64 = 6;

/// Stream tag of serialized Galois keys.
pub const WKIND_GALOIS_KEYS: u64 = 7;

/// Key-type tag of public keys inside the material derivation.
pub const KEY_TAG_PUBLIC: u64 = 1;

/// Key-type tag of secret keys inside the material derivation.
pub const KEY_TAG_SECRET: u64 = 2;

/// Key-type tag of relinearization keys inside the material derivation.
pub const KEY_TAG_RELIN: u64 = 3;

/// Key-type tag of Galois keys inside the material derivation.
pub const KEY_TAG_GALOIS: u64 = 4;

/// The number of material words each key carries.
pub const KEY_WORDS: usize = 8;

/// The abstract value of a key: the chain point it is bound to and its
/// opaque material.
pub struct KeyV {
    /// The parameter identity the key was generated for.
    pub parms_id: ParmsId,
    /// The opaque key material.
    pub material: Seq<u64>,
}

/// The material a key of the given type carries for a chain point.
pub open spec fn key_material(id: ParmsId, tag: u64) -> Seq<u64> {
    Seq::new(
        KEY_WORDS as nat,
        |i: int| mix64(mix64(mix64(id.w0, id.w1), mix64(id.w2, id.w3)), (tag * 256 + i) as u64),
    )
}

/// A key bound to the top of a context's chain, carrying the material of
/// its type.
pub open spec fn key_wf(v: KeyV, ctx: ContextV, tag: u64) -> bool {
    &&& ctx.chain.len() > 0
    &&& v.parms_id == ctx.chain[0]
    &&& v.material == key_material(v.parms_id, tag)
}

/// Computes the material of a key.
pub fn key_material_exec(id: &ParmsId, tag: u64) -> (r: Vec<u64>)
    requires
        tag <= 16,
    ensures
        r@ == key_material(*id, tag),
{
    let h = mix64_exec(mix64_exec(id.w0, id.w1), mix64_exec(id.w2, id.w3));
    let mut out: Vec<u64> = Vec::new();
    let mut i: usize = 0;
    while i < KEY_WORDS
        invariant
            i <= KEY_WORDS,
            tag <= 16,
            h == mix64(mix64(id.w0, id.w1), mix64(id.w2, id.w3)),
            out@ == key_material(*id, tag).take(i as int),
        decreases KEY_WORDS - i,
    {
        let w = mix64_exec(h, tag * 256 + i as u64);
        out.push(w);
        proof {
            assert(key_material(*id, tag).take(i + 1) =~= key_material(*id, tag).take(
                i as int,
            ).push(key_material(*id, tag)[i as int]));
        }
        i = i + 1;
    }
    proof {
        assert(key_material(*id, tag).take(KEY_WORDS as int) =~= key_material(*id, tag));
    }
    out
}

/// The words of a key.
pub open spec fn key_words(kind: u64, v: KeyV) -> Seq<u64> {
    seq![kind, v.parms_id.w0, v.parms_id.w1, v.parms_id.w2, v.parms_id.w3] + v.material
}

/// Reads a key back from a word stream.
pub open spec fn parse_key_words(kind: u64, ws: Seq<u64>) -> Option<KeyV> {
    if ws.len() < 5 {
        None
    } else if ws[0] != kind {
        None
    } else {
        Some(
            KeyV {
                parms_id: (ParmsId { w0: ws[1], w1: ws[2], w2: ws[3], w3: ws[4] }),
                material: ws.skip(5),
            },
        )
    }
}

/// Reads a key back from a byte stream.
pub open spec fn parse_key(kind: u64, bs: Seq<u8>) -> Option<KeyV> {
    match decode_words(bs) {
        None => None,
        Some(ws) => parse_key_words(kind, ws),
    }
}

/// What key loading accepts for a context: the stream parses, names the top
/// of the context's chain, and carries exactly the material of its key type.
pub open spec fn key_load_ok(kind: u64, tag: u64, bs: Seq<u8>, ctx: ContextV) -> bool {
    match parse_key(kind, bs) {
        None => false,
        Some(v) => key_wf(v, ctx, tag),
    }
}

/// Serializing a key and reading it back yields the same value.
pub proof fn lemma_key_roundtrip(kind: u64, v: KeyV)
    requires
        v.material.len() < 1024,
    ensures
        parse_key(kind, encode_words(key_words(kind, v))) == Some(v),
{
    lemma_words_roundtrip(key_words(kind, v));
    assert(key_words(kind, v).skip(5) =~= v.material);
}

/// Writes a key as a byte stream.
fn save_key(kind: u64, parms_id: &ParmsId, material: &Vec<u64>) -> (r: Vec<u8>)
    requires
        material@.len() < 1024,
    ensures
        r@ == encode_words(
            key_words(kind, (KeyV { parms_id: *parms_id, material: material@ })),
        ),
{
    let mut ws: Vec<u64> = Vec::new();
    ws.push(kind);
    ws.push(parms_id.w0);
    ws.push(parms_id.w1);
    ws.push(parms_id.w2);
    ws.push(parms_id.w3);
    let mut i: usize = 0;
    while i < material.len()
        invariant
            i <= material@.len(),
            ws@ == seq![kind, parms_id.w0, parms_id.w1, parms_id.w2, parms_id.w3]
                + material@.take(i as int),
        decreases material@.len() - i,
    {
        ws.push(material[i]);
        proof {
            assert(material@.take(i + 1) =~= material@.take(i as int).push(
                material@[i as int],
            ));
        }
        i = i + 1;
    }
    proof {
        assert(material@.take(material@.len() as int) =~= material@);
        assert(ws@ =~= key_words(
            kind,
            (KeyV { parms_id: *parms_id, material: material@ }),
        ));
    }
    encode_words_vec(&ws)
}

/// Reads a key back from a byte stream, bound to a context: the key must
/// name the top of the context's chain and carry the material of its type.
fn load_key(kind: u64, tag: u64, context: &Context, bytes: &[u8]) -> (r: Result<
    (ParmsId, Vec<u64>),
    HeError,
>)
    requires
        context@.wf(),
        tag <= 16,
    ensures
        match r {
            Ok((id, material)) => {
                &&& key_load_ok(kind, tag, bytes@, context@)
                &&& parse_key(kind, bytes@) == Some(
                    (KeyV { parms_id: id, material: material@ }),
                )
            },
            Err(e) => !key_load_ok(kind, tag, bytes@, context@) && e == HeError::Serialization,
        },
{
    let ws = match decode_words_vec(bytes) {
        None => {
            return Err(HeError::Serialization);
        },
        Some(ws) => ws,
    };
    if ws.len() < 5 {
        return Err(HeError::Serialization);
    }
    if ws[0] != kind {
        return Err(HeError::Serialization);
    }
    let id = ParmsId { w0: ws[1], w1: ws[2], w2: ws[3], w3: ws[4] };
    let mut material: Vec<u64> = Vec::new();
    let mut i: usize = 5;
    while i < ws.len()
        invariant
            5 <= i <= ws@.len(),
            material@ == ws@.subrange(5, i as int),
        decreases ws@.len() - i,
    {
        material.push(ws[i]);
        proof {
            assert(ws@.subrange(5, i + 1) =~= ws@.subrange(5, i as int).push(ws@[i as int]));
        }
        i = i + 1;
    }
    proof {
        assert(material@ =~= ws@.skip(5));
    }
    let top = context.chain_ids[0];
    if !(top.w0 == id.w0 && top.w1 == id.w1 && top.w2 == id.w2 && top.w3 == id.w3) {
        return Err(HeError::Serialization);
    }
    let expected = key_material_exec(&id, tag);
    if material.len() != expected.len() {
        return Err(HeError::Serialization);
    }
    let mut j: usize = 0;
    while j < material.len()
        invariant
            j <= material@.len(),
            material@.len() == key_material(id, tag).len(),
            expected@ == key_material(id, tag),
            parse_key(kind, bytes@) == Some((KeyV { parms_id: id, material: material@ })),
            forall|k: int| 0 <= k < j ==> material@[k] == key_material(id, tag)[k],
        decreases material@.len() - j,
    {
        if material[j] != expected[j] {
            proof {
                assert(material@[j as int] != key_material(id, tag)[j as int]);
                assert(material@ != key_material(id, tag));
            }
            return Err(HeError::Serialization);
        }
        j = j + 1;
    }
    proof {
        assert(material@ =~= key_material(id, tag));
    }
    Ok((id, material))
}

/// The public encryption key of a key pair.
pub struct PublicKey {
    /// The parameter identity the key was generated for.
    pub parms_id: ParmsId,
    /// The opaque key material.
    pub material: Vec<u64>,
}

impl View for PublicKey {
    type V = KeyV;

    open spec fn view(&self) -> KeyV {
        KeyV { parms_id: self.parms_id, material: self.material@ }
    }
}

impl PublicKey {
    /// Writes the key as a byte stream.
    pub fn save(&self) -> (r: Result<Vec<u8>, HeError>)
        requires
            self@.material.len() < 1024,
        ensures
            match r {
                Ok(bytes) => bytes@ == encode_words(key_words(WKIND_PUBLIC_KEY, self@)),
                Err(_) => false,
            },
    {
        Ok(save_key(WKIND_PUBLIC_KEY, &self.parms_id, &self.material))
    }

    /// Reads a public key back from a byte stream, bound to a context.
    pub fn load(context: &Context, bytes: &[u8]) -> (r: Result<PublicKey, HeError>)
        requires
            context@.wf(),
        ensures
            match r {
                Ok(k) => {
                    &&& key_load_ok(WKIND_PUBLIC_KEY, KEY_TAG_PUBLIC, bytes@, context@)
                    &&& parse_key(WKIND_PUBLIC_KEY, bytes@) == Some(k@)
                    &&& key_wf(k@, context@, KEY_TAG_PUBLIC)
                },
                Err(e) => !key_load_ok(WKIND_PUBLIC_KEY, KEY_TAG_PUBLIC, bytes@, context@) && e
                    == HeError::Serialization,
            },
    {
        let (parms_id, material) = load_key(WKIND_PUBLIC_KEY, KEY_TAG_PUBLIC, context, bytes)?;
        Ok(PublicKey { parms_id, material })
    }
}

/// The secret decryption key of a key pair.
pub struct SecretKey {
    /// The parameter identity the key was generated for.
    pub parms_id: ParmsId,
    /// The opaque key material.
    pub material: Vec<u64>,
}

impl View for SecretKey {
    type V = KeyV;

    open spec fn view(&self) -> KeyV {
        KeyV { parms_id: self.parms_id, material: self.material@ }
    }
}

impl SecretKey {
    /// The opaque key material.
    pub fn ptr(&self) -> (r: &Vec<u64>)
        ensures
            r@ == self@.material,
    {
        &self.material
    }

    /// Writes the key as a byte stream.
    pub fn save(&self) -> (r: Result<Vec<u8>, HeError>)
        requires
            self@.material.len() < 1024,
        ensures
            match r {
                Ok(bytes) => bytes@ == encode_words(key_words(WKIND_SECRET_KEY, self@)),
                Err(_) => false,
            },
    {
        Ok(save_key(WKIND_SECRET_KEY, &self.parms_id, &self.material))
    }

    /// Reads a secret key back from a byte stream, bound to a context.
    pub fn load(context: &Context, bytes: &[u8]) -> (r: Result<SecretKey, HeError>)
        requires
            context@.wf(),
        ensures
            match r {
                Ok(k) => {
                    &&& key_load_ok(WKIND_SECRET_KEY, KEY_TAG_SECRET, bytes@, context@)
                    &&& parse_key(WKIND_SECRET_KEY, bytes@) == Some(k@)
                    &&& key_wf(k@, context@, KEY_TAG_SECRET)
                },
                Err(e) => !key_load_ok(WKIND_SECRET_KEY, KEY_TAG_SECRET, bytes@, context@) && e
                    == HeError::Serialization,
            },
    {
        let (parms_id, material) = load_key(WKIND_SECRET_KEY, KEY_TAG_SECRET, context, bytes)?;
        Ok(SecretKey { parms_id, material })
    }
}

/// The key-switching keys that reduce a post-multiplication ciphertext back
/// to its standard two-component form.
pub struct RelinearizationKeys {
    /// The parameter identity the keys were generated for.
    pub parms_id: ParmsId,
    /// The opaque key material.
    pub material: Vec<u64>,
}

impl View for RelinearizationKeys {
    type V = KeyV;

    open spec fn view(&self) -> KeyV {
        KeyV { parms_id: self.parms_id, material: self.material@ }
    }
}

impl RelinearizationKeys {
    /// The opaque key material.
    pub fn ptr(&self) -> (r: &Vec<u64>)
        ensures
            r@ == self@.material,
    {
        &self.material
    }

    /// Writes the keys as a byte stream.
    pub fn save(&self) -> (r: Result<Vec<u8>, HeError>)
        requires
            self@.material.len() < 1024,
        ensures
            match r {
                Ok(bytes) => bytes@ == encode_words(key_words(WKIND_RELIN_KEYS, self@)),
                Err(_) => false,
            },
    {
        Ok(save_key(WKIND_RELIN_KEYS, &self.parms_id, &self.material))
    }

    /// Reads relinearization keys back from a byte stream, bound to a
    /// context.
    pub fn load(context: &Context, bytes: &[u8]) -> (r: Result<RelinearizationKeys, HeError>)
        requires
            context@.wf(),
        ensures
            match r {
                Ok(k) => {
                    &&& key_load_ok(WKIND_RELIN_KEYS, KEY_TAG_RELIN, bytes@, context@)
                    &&& parse_key(WKIND_RELIN_KEYS, bytes@) == Some(k@)
                    &&& key_wf(k@, context@, KEY_TAG_RELIN)
                },
                Err(e) => !key_load_ok(WKIND_RELIN_KEYS, KEY_TAG_RELIN, bytes@, context@) && e
                    == HeError::Serialization,
            },
    {
        let (parms_id, material) = load_key(WKIND_RELIN_KEYS, KEY_TAG_RELIN, context, bytes)?;
        Ok(RelinearizationKeys { parms_id, material })
    }

    /// A deep copy of the keys.
    pub fn clone(&self) -> (r: Result<RelinearizationKeys, HeError>)
        ensures
            match r {
                Ok(k) => k@ == self@,
                Err(_) => false,
            },
    {
        Ok(
            RelinearizationKeys {
                parms_id: self.parms_id,
                material: clone_u64_vec(&self.material),
            },
        )
    }
}

/// The key-switching keys that rotate encoded slots.
pub struct GaloisKeys {
    /// The parameter identity the keys were generated for.
    pub parms_id: ParmsId,
    /// The opaque key material.
    pub material: Vec<u64>,
}

impl View for GaloisKeys {
    type V = KeyV;

    open spec fn view(&self) -> KeyV {
        KeyV { parms_id: self.parms_id, material: self.material@ }
    }
}

impl GaloisKeys {
    /// The opaque key material.
    pub fn ptr(&self) -> (r: &Vec<u64>)
        ensures
            r@ == self@.material,
    {
        &self.material
    }

    /// Writes the keys as a byte stream.
    pub fn save(&self) -> (r: Result<Vec<u8>, HeError>)
        requires
            self@.material.len() < 1024,
        ensures
            match r {
                Ok(bytes) => bytes@ == encode_words(key_words(WKIND_GALOIS_KEYS, self@)),
                Err(_) => false,
            },
    {
        Ok(save_key(WKIND_GALOIS_KEYS, &self.parms_id, &self.material))
    }

    /// Reads Galois keys back from a byte stream, bound to a context.
    pub fn load(context: &Context, bytes: &[u8]) -> (r: Result<GaloisKeys, HeError>)
        requires
            context@.wf(),
        ensures
            match r {
                Ok(k) => {
                    &&& key_load_ok(WKIND_GALOIS_KEYS, KEY_TAG_GALOIS, bytes@, context@)
                    &&& parse_key(WKIND_GALOIS_KEYS, bytes@) == Some(k@)
                    &&& key_wf(k@, context@, KEY_TAG_GALOIS)
                },
                Err(e) => !key_load_ok(WKIND_GALOIS_KEYS, KEY_TAG_GALOIS, bytes@, context@) && e
                    == HeError::Serialization,
            },
    {
        let (parms_id, material) = load_key(WKIND_GALOIS_KEYS, KEY_TAG_GALOIS, context, bytes)?;
        Ok(GaloisKeys { parms_id, material })
    }

    /// A deep copy of the keys.
    pub fn clone(&self) -> (r: Result<GaloisKeys, HeError>)
        ensures
            match r {
                Ok(k) => k@ == self@,
                Err(_) => false,
            },
    {
        Ok(GaloisKeys { parms_id: self.parms_id, material: clone_u64_vec(&self.material) })
    }
}

/// Derives key material bound to a context's top chain level.
pub struct KeyGenerator {
    /// The context the generator derives keys for.
    pub ctx: Context,
}

impl KeyGenerator {
    /// Creates a key generator for a context.
    pub fn create(context: &Context) -> (r: Result<KeyGenerator, HeError>)
        requires
            context@.wf(),
        ensures
            match r {
                Ok(kg) => kg.ctx@ == context@ && kg.ctx@.wf(),
                Err(_) => false,
            },
    {
        Ok(KeyGenerator { ctx: context.duplicate() })
    }

    /// Derives the public key of the context's key pair.
    pub fn public_key(&self) -> (r: Result<PublicKey, HeError>)
        requires
            self.ctx@.wf(),
        ensures
            match r {
                Ok(k) => key_wf(k@, self.ctx@, KEY_TAG_PUBLIC),
                Err(_) => false,
            },
    {
        let id = self.ctx.chain_ids[0];
        let material = key_material_exec(&id, KEY_TAG_PUBLIC);
        Ok(PublicKey { parms_id: id, material })
    }

    /// Derives the secret key of the context's key pair.
    pub fn secret_key(&self) -> (r: Result<SecretKey, HeError>)
        requires
            self.ctx@.wf(),
        ensures
            match r {
                Ok(k) => key_wf(k@, self.ctx@, KEY_TAG_SECRET),
                Err(_) => false,
            },
    {
        let id = self.ctx.chain_ids[0];
        let material = key_material_exec(&id, KEY_TAG_SECRET);
        Ok(SecretKey { parms_id: id, material })
    }

    /// Derives relinearization keys: the key-switching material that reduces
    /// a size-3 ciphertext back to size 2 after a multiplication.
    pub fn relinearization_keys(&self) -> (r: Result<RelinearizationKeys, HeError>)
        requires
            self.ctx@.wf(),
        ensures
            match r {
                Ok(k) => key_wf(k@, self.ctx@, KEY_TAG_RELIN),
                Err(_) => false,
            },
    {
        let id = self.ctx.chain_ids[0];
        let material = key_material_exec(&id, KEY_TAG_RELIN);
        Ok(RelinearizationKeys { parms_id: id, material })
    }

    /// Derives Galois keys: the key-switching material that rotates encoded
    /// slots.
    pub fn galois_keys(&self) -> (r: Result<GaloisKeys, HeError>)
        requires
            self.ctx@.wf(),
        ensures
            match r {
                Ok(k) => key_wf(k@, self.ctx@, KEY_TAG_GALOIS),
                Err(_) => false,
            },
    {
        let id = self.ctx.chain_ids[0];
        let material = key_material_exec(&id, KEY_TAG_GALOIS);
        Ok(GaloisKeys { parms_id: id, material })
    }
}

} // verus!
