//! Encryption: plaintext to ciphertext.
//!
//! The resulting ciphertext inherits the plaintext's parameter identity and
//! scale, starts at the standard two components, and carries the fresh noise
//! budget of its chain level.

use vstd::prelude::*;

use crate::cipher_text::Ciphertext;
use crate::cipher_text::CiphertextV;
use crate::context::Context;
use crate::context::ParmsId;
use crate::context::sum_bits_exec;
use crate::error::HeError;
use crate::error::OperationIssue;
use crate::key_generator::key_wf;
use crate::key_generator::PublicKey;
use crate::key_generator::SecretKey;
use crate::key_generator::KEY_TAG_PUBLIC;
use crate::key_generator::KEY_TAG_SECRET;
use crate::key_generator::key_material_exec;
use crate::plain_text::clone_slot_data;
use crate::plain_text::pad_fixes;
use crate::plain_text::Plaintext;
use crate::plain_text::PlaintextV;
use crate::plain_text::SlotData;
use crate::plain_text::SlotsV;
use crate::small_modulus::bit_length;
use crate::SCHEME_BFV;
use crate::SCHEME_CKKS;

verus! {

/// The ciphertext a plaintext encrypts to under a context: the same slot
/// contents (mantissas padded to the full slot width), two components, the
/// plaintext's chain point, and the fresh noise budget of that level.
pub open spec fn encrypt_spec(p: PlaintextV, ctx: crate::context::ContextV) -> CiphertextV {
    let level = if p.bound {
        p.level
    } else {
        0
    };
    CiphertextV {
        data: match p.data {
            SlotsV::Ints(s) => SlotsV::Ints(s),
            SlotsV::Fixes(s) => SlotsV::Fixes(pad_fixes(s, ctx.params.degree as int / 2)),
        },
        ct_size: 2,
        level,
        parms_id: ctx.chain[level as int],
        scale: p.scale,
        budget: ctx.fresh_budget(level as int) as i64,
        degree: ctx.params.degree,
        coeff_count: (ctx.data_count - level) as usize,
        plain_modulus: ctx.params.plain,
        scheme: ctx.params.scheme,
    }
}

/// Transforms plaintexts into ciphertexts under a public key.
pub struct Encryptor {
    /// The context the encryptor encrypts under.
    pub ctx: Context,
}

impl Encryptor {
    /// Creates an encryptor for a context and its key pair.  Both keys must
    /// belong to the top of the context's chain.
    pub fn create(context: &Context, public_key: &PublicKey, secret_key: &SecretKey) -> (r: Result<
        Encryptor,
        HeError,
    >)
        requires
            context@.wf(),
        ensures
            match r {
                Ok(e) => {
                    &&& key_wf(public_key@, context@, KEY_TAG_PUBLIC)
                    &&& key_wf(secret_key@, context@, KEY_TAG_SECRET)
                    &&& e.ctx@ == context@
                    &&& e.ctx@.wf()
                },
                Err(e) => {
                    &&& e == HeError::Operation(OperationIssue::KeyMismatch)
                    &&& !(key_wf(public_key@, context@, KEY_TAG_PUBLIC) && key_wf(
                        secret_key@,
                        context@,
                        KEY_TAG_SECRET,
                    ))
                },
            },
    {
        if !key_matches(context, &public_key.parms_id, &public_key.material, KEY_TAG_PUBLIC) {
            return Err(HeError::Operation(OperationIssue::KeyMismatch));
        }
        if !key_matches(context, &secret_key.parms_id, &secret_key.material, KEY_TAG_SECRET) {
            return Err(HeError::Operation(OperationIssue::KeyMismatch));
        }
        Ok(Encryptor { ctx: context.duplicate() })
    }

    /// Encrypts a plaintext into a fresh two-component ciphertext allocated
    /// in the plaintext's pool.  The ciphertext's parameter identity and
    /// scale are inherited from the plaintext; integer slot values must lie
    /// below the plaintext modulus.
    pub fn encrypt(&self, plain_text: &Plaintext) -> (r: Result<Ciphertext, HeError>)
        requires
            self.ctx@.wf(),
            plain_text@.wf(),
            plain_text@.ok_for(self.ctx@),
        ensures
            match r {
                Ok(c) => {
                    &&& encrypt_ok(plain_text@, self.ctx@)
                    &&& c@ == encrypt_spec(plain_text@, self.ctx@)
                    &&& c.pool == plain_text.pool
                    &&& c@.wf()
                    &&& c@.ok_for(self.ctx@)
                },
                Err(e) => !encrypt_ok(plain_text@, self.ctx@) && e == HeError::Operation(
                    match plain_text@.data {
                        SlotsV::Ints(s) => {
                            if self.ctx@.params.scheme != SCHEME_BFV {
                                OperationIssue::SchemeMismatch
                            } else if s.len() > self.ctx@.params.degree {
                                OperationIssue::SizeMismatch
                            } else {
                                OperationIssue::ValueOutOfRange
                            }
                        },
                        SlotsV::Fixes(s) => {
                            if self.ctx@.params.scheme != SCHEME_CKKS {
                                OperationIssue::SchemeMismatch
                            } else {
                                OperationIssue::SizeMismatch
                            }
                        },
                    },
                ),
            },
    {
        let level: usize = if plain_text.bound {
            plain_text.level
        } else {
            0
        };
        match &plain_text.data {
            SlotData::Ints(s) => {
                if self.ctx.params.scheme != SCHEME_BFV {
                    return Err(HeError::Operation(OperationIssue::SchemeMismatch));
                }
                if s.len() > self.ctx.params.poly_modulus_degree {
                    return Err(HeError::Operation(OperationIssue::SizeMismatch));
                }
                let t = self.ctx.params.plain_modulus;
                let mut i: usize = 0;
                while i < s.len()
                    invariant
                        i <= s@.len(),
                        t == self.ctx@.params.plain,
                        self.ctx@.params.scheme == SCHEME_BFV,
                        s@.len() <= self.ctx@.params.degree,
                        plain_text@.data == SlotsV::Ints(s@),
                        forall|j: int| 0 <= j < i ==> #[trigger] s@[j] < t,
                    decreases s@.len() - i,
                {
                    if s[i] >= t {
                        proof {
                            assert(!(s@[i as int] < t));
                        }
                        return Err(HeError::Operation(OperationIssue::ValueOutOfRange));
                    }
                    i = i + 1;
                }
            },
            SlotData::Fixes(s) => {
                if self.ctx.params.scheme != SCHEME_CKKS {
                    return Err(HeError::Operation(OperationIssue::SchemeMismatch));
                }
                if s.len() > self.ctx.params.poly_modulus_degree / 2 {
                    return Err(HeError::Operation(OperationIssue::SizeMismatch));
                }
            },
        }
        let coeff_count = self.ctx.data_count - level;
        let total = sum_bits_exec(&self.ctx.params.coeff_modulus, coeff_count);
        let tbits = bit_length(self.ctx.params.plain_modulus);
        let budget: i64 = total as i64 - tbits as i64;
        let data: SlotData = match &plain_text.data {
            SlotData::Ints(s) => clone_slot_data(&plain_text.data),
            SlotData::Fixes(s) => {
                let n = self.ctx.params.poly_modulus_degree / 2;
                let mut v: Vec<i128> = Vec::new();
                let mut i: usize = 0;
                while i < n
                    invariant
                        i <= n,
                        s@.len() <= n,
                        plain_text@.data == SlotsV::Fixes(s@),
                        v@ == pad_fixes(s@, n as int).take(i as int),
                    decreases n - i,
                {
                    let x: i128 = if i < s.len() {
                        s[i]
                    } else {
                        0
                    };
                    v.push(x);
                    proof {
                        assert(pad_fixes(s@, n as int).take(i + 1) =~= pad_fixes(
                            s@,
                            n as int,
                        ).take(i as int).push(pad_fixes(s@, n as int)[i as int]));
                    }
                    i = i + 1;
                }
                proof {
                    assert(pad_fixes(s@, n as int).take(n as int) =~= pad_fixes(s@, n as int));
                }
                SlotData::Fixes(v)
            },
        };
        let c = Ciphertext {
            data,
            ct_size: 2,
            level,
            parms_id: self.ctx.chain_ids[level],
            scale: plain_text.scale,
            budget,
            degree: self.ctx.params.poly_modulus_degree,
            coeff_count,
            plain_modulus: self.ctx.params.plain_modulus,
            scheme: self.ctx.params.scheme,
            pool: plain_text.pool,
        };
        proof {
            assert(self.ctx@.params.coeff.take(coeff_count as int) == self.ctx@.level_primes(
                level as int,
            ));
            let sp = encrypt_spec(plain_text@, self.ctx@);
            assert(c@.budget == sp.budget);
            assert(c@.data == sp.data);
            assert(c@.parms_id == sp.parms_id);
            assert(c@ == sp);
            match c@.data {
                SlotsV::Ints(s) => {
                    assert(crate::plain_text::ints_below(s, c@.plain_modulus));
                },
                SlotsV::Fixes(s) => {
                    assert(crate::plain_text::fixes_bounded(s));
                },
            }
            assert(c@.wf());
            assert(c@.ok_for(self.ctx@));
        }
        Ok(c)
    }
}

/// Whether a plaintext can be encrypted under a context: the scheme agrees
/// with the slot representation, the contents fit the slot width, and
/// integer values lie below the plaintext modulus.
pub open spec fn encrypt_ok(p: PlaintextV, ctx: crate::context::ContextV) -> bool {
    match p.data {
        SlotsV::Ints(s) => {
            &&& ctx.params.scheme == SCHEME_BFV
            &&& s.len() <= ctx.params.degree
            &&& forall|i: int| 0 <= i < s.len() ==> #[trigger] s[i] < ctx.params.plain
        },
        SlotsV::Fixes(s) => {
            &&& ctx.params.scheme == SCHEME_CKKS
            &&& s.len() <= ctx.params.degree as int / 2
        },
    }
}

/// Whether a key names the top of a context's chain and carries the
/// material of its type.
pub(crate) fn key_matches(context: &Context, id: &ParmsId, material: &Vec<u64>, tag: u64) -> (r: bool)
    requires
        context@.wf(),
        tag <= 16,
    ensures
        r == key_wf((crate::key_generator::KeyV { parms_id: *id, material: material@ }), context@, tag),
{
    let top = context.chain_ids[0];
    if !(top.w0 == id.w0 && top.w1 == id.w1 && top.w2 == id.w2 && top.w3 == id.w3) {
        return false;
    }
    let expected = key_material_exec(id, tag);
    if material.len() != expected.len() {
        return false;
    }
    let mut j: usize = 0;
    while j < material.len()
        invariant
            j <= material@.len(),
            material@.len() == crate::key_generator::key_material(*id, tag).len(),
            expected@ == crate::key_generator::key_material(*id, tag),
            forall|k: int|
                0 <= k < j ==> material@[k] == crate::key_generator::key_material(*id, tag)[k],
        decreases material@.len() - j,
    {
        if material[j] != expected[j] {
            proof {
                assert(material@[j as int] != crate::key_generator::key_material(*id, tag)[
                    j as int]);
            }
            return false;
        }
        j = j + 1;
    }
    proof {
        assert(material@ =~= crate::key_generator::key_material(*id, tag));
    }
    true
}

} // verus!
