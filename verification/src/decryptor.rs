//! Decryption and the noise-budget query.
//!
//! Decryption inverts encryption as long as the ciphertext's invariant
//! noise budget is still positive; a ciphertext at or past the threshold
//! still decrypts, but to values that diverge from the encrypted ones.  The
//! budget query is meaningful only for the integer scheme and never mutates
//! anything.

use vstd::prelude::*;

use crate::cipher_text::Ciphertext;
use crate::cipher_text::CiphertextV;
use crate::context::Context;
use crate::error::HeError;
use crate::error::OperationIssue;
use crate::key_generator::key_wf;
use crate::key_generator::SecretKey;
use crate::key_generator::KEY_TAG_SECRET;
use crate::key_generator::key_material_exec;
use crate::plain_text::clone_slot_data;
use crate::plain_text::Plaintext;
use crate::plain_text::PlaintextV;
use crate::plain_text::SlotData;
use crate::plain_text::SlotsV;
use crate::SCHEME_BFV;

verus! {

/// Whether a ciphertext still decrypts to the encrypted values: the
/// fractional scheme always does in this model, the integer scheme only
/// while the invariant noise budget is positive.
pub open spec fn decrypts_correctly(c: CiphertextV) -> bool {
    c.data is Fixes || c.budget > 0
}

/// The plaintext a ciphertext decrypts to.  While the ciphertext decrypts
/// correctly the slot values come back unchanged; past the noise threshold
/// every integer slot is displaced by one step modulo the plaintext
/// modulus, a deterministic stand-in for noise corruption.
pub open spec fn decrypt_spec(c: CiphertextV) -> PlaintextV {
    PlaintextV {
        data: if decrypts_correctly(c) {
            c.data
        } else {
            SlotsV::Ints(
                Seq::new(
                    c.data->Ints_0.len(),
                    |i: int| (((c.data->Ints_0[i] + 1) as int) % (c.plain_modulus as int)) as u64,
                ),
            )
        },
        bound: true,
        parms_id: c.parms_id,
        level: c.level,
        scale: c.scale,
    }
}

/// Transforms ciphertexts back into plaintexts under a secret key.
pub struct Decryptor {
    /// The context the decryptor decrypts under.
    pub ctx: Context,
}

impl Decryptor {
    /// Creates a decryptor for a context and its secret key.  The key must
    /// belong to the top of the context's chain.
    pub fn create(context: &Context, secret_key: &SecretKey) -> (r: Result<Decryptor, HeError>)
        requires
            context@.wf(),
        ensures
            match r {
                Ok(d) => {
                    &&& key_wf(secret_key@, context@, KEY_TAG_SECRET)
                    &&& d.ctx@ == context@
                    &&& d.ctx@.wf()
                },
                Err(e) => {
                    &&& e == HeError::Operation(OperationIssue::KeyMismatch)
                    &&& !key_wf(secret_key@, context@, KEY_TAG_SECRET)
                },
            },
    {
        let top = context.chain_ids[0];
        let id = &secret_key.parms_id;
        if !(top.w0 == id.w0 && top.w1 == id.w1 && top.w2 == id.w2 && top.w3 == id.w3) {
            return Err(HeError::Operation(OperationIssue::KeyMismatch));
        }
        let expected = key_material_exec(id, KEY_TAG_SECRET);
        if secret_key.material.len() != expected.len() {
            return Err(HeError::Operation(OperationIssue::KeyMismatch));
        }
        let mut j: usize = 0;
        while j < secret_key.material.len()
            invariant
                j <= secret_key.material@.len(),
                secret_key.material@.len() == crate::key_generator::key_material(
                    secret_key.parms_id,
                    KEY_TAG_SECRET,
                ).len(),
                expected@ == crate::key_generator::key_material(
                    secret_key.parms_id,
                    KEY_TAG_SECRET,
                ),
                forall|k: int|
                    0 <= k < j ==> secret_key.material@[k]
                        == crate::key_generator::key_material(
                        secret_key.parms_id,
                        KEY_TAG_SECRET,
                    )[k],
            decreases secret_key.material@.len() - j,
        {
            if secret_key.material[j] != expected[j] {
                proof {
                    assert(secret_key.material@[j as int]
                        != crate::key_generator::key_material(
                        secret_key.parms_id,
                        KEY_TAG_SECRET,
                    )[j as int]);
                }
                return Err(HeError::Operation(OperationIssue::KeyMismatch));
            }
            j = j + 1;
        }
        proof {
            assert(secret_key.material@ =~= crate::key_generator::key_material(
                secret_key.parms_id,
                KEY_TAG_SECRET,
            ));
        }
        Ok(Decryptor { ctx: context.duplicate() })
    }

    /// Decrypts a ciphertext.  The ciphertext may sit at any level of the
    /// decryptor's chain — an ancestor relationship through the
    /// modulus-switching chain is enough; an exact top-level match is not
    /// required.
    pub fn decrypt(&self, cipher_text: &Ciphertext) -> (r: Result<Plaintext, HeError>)
        requires
            self.ctx@.wf(),
            cipher_text@.wf(),
            cipher_text@.ok_for(self.ctx@),
        ensures
            match r {
                Ok(p) => p@ == decrypt_spec(cipher_text@) && p@.wf(),
                Err(_) => false,
            },
    {
        let correct = match &cipher_text.data {
            SlotData::Fixes(_) => true,
            SlotData::Ints(_) => cipher_text.budget > 0,
        };
        let data: SlotData = if correct {
            clone_slot_data(&cipher_text.data)
        } else {
            let s = match &cipher_text.data {
                SlotData::Ints(s) => s,
                SlotData::Fixes(_) => {
                    proof {
                        assert(false);
                    }
                    return Err(HeError::Resource);
                },
            };
            let t = cipher_text.plain_modulus;
            let mut v: Vec<u64> = Vec::new();
            let mut i: usize = 0;
            while i < s.len()
                invariant
                    i <= s@.len(),
                    t == cipher_text@.plain_modulus,
                    t >= 2,
                    cipher_text@.data == SlotsV::Ints(s@),
                    crate::plain_text::ints_below(s@, t),
                    v@.len() == i,
                    forall|j: int|
                        0 <= j < i ==> v@[j] == (((s@[j] + 1) as int) % (t as int)) as u64,
                decreases s@.len() - i,
            {
                let x: u64 = if s[i] >= t - 1 {
                    0
                } else {
                    s[i] + 1
                };
                proof {
                    assert(s@[i as int] < t);
                    if s@[i as int] + 1 == t {
                        vstd::arithmetic::div_mod::lemma_mod_self_0(t as int);
                    } else {
                        vstd::arithmetic::div_mod::lemma_small_mod(
                            (s@[i as int] + 1) as nat,
                            t as nat,
                        );
                    }
                }
                v.push(x);
                i = i + 1;
            }
            proof {
                assert(v@ =~= Seq::new(
                    s@.len(),
                    |j: int| (((s@[j] + 1) as int) % (t as int)) as u64,
                ));
            }
            SlotData::Ints(v)
        };
        let p = Plaintext {
            data,
            bound: true,
            parms_id: cipher_text.parms_id,
            level: cipher_text.level,
            scale: cipher_text.scale,
            pool: cipher_text.pool,
        };
        Ok(p)
    }

    /// The invariant noise budget of a ciphertext, in bits: the room left
    /// for noise to grow before decryption stops being reliable.  A
    /// non-positive result signals the threshold has been reached.  Only the
    /// integer scheme carries a meaningful budget; this is a query, never a
    /// mutation.
    pub fn invariant_noise_budget(&self, cipher_text: &Ciphertext) -> (r: Result<i32, HeError>)
        requires
            self.ctx@.wf(),
            cipher_text@.wf(),
        ensures
            match r {
                Ok(b) => {
                    &&& cipher_text@.scheme == SCHEME_BFV
                    &&& b as int == if cipher_text@.budget > 0 {
                        cipher_text@.budget as int
                    } else {
                        0
                    }
                },
                Err(e) => cipher_text@.scheme != SCHEME_BFV && e == HeError::Operation(
                    OperationIssue::SchemeMismatch,
                ),
            },
    {
        if cipher_text.scheme != SCHEME_BFV {
            return Err(HeError::Operation(OperationIssue::SchemeMismatch));
        }
        if cipher_text.budget > 0 {
            Ok(cipher_text.budget as i32)
        } else {
            Ok(0)
        }
    }
}

} // verus!
