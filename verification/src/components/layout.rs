//! Where each part of a bundle stands among its bytes.

use vstd::prelude::*;

use crate::field::le_value;
use crate::field::pallas_base_canonical;
use crate::pool::BundleVersion;

use super::encoding::compact_bytes;
use super::encoding::le_bytes;
use super::encoding::lemma_le_bytes_value;
use super::encoding::numbers;
use super::encoding::unsigned;
use super::encoding::ReadError;
use super::laws::lemma_action_read_write;
use super::laws::lemma_array_exists;
use super::laws::lemma_bundle_read_write;
use super::orchard::action_read;
use super::orchard::actions_bytes;
use super::orchard::bundle_bytes;
use super::orchard::bundle_read;
use super::orchard::bundle_write_error;
use super::orchard::signatures_bytes;
use super::orchard::WireAction;
use super::orchard::WireView;

verus! {

/// How many bytes a number that counts something takes: one below 253, else one and the two or four
/// that hold it.
pub open spec fn count_width(n: nat) -> int {
    if n < 253 {
        1
    } else if n < 65536 {
        3
    } else {
        5
    }
}

/// An action takes 820 bytes: the value commitment, the nullifier, the verification key, the note
/// commitment, the ephemeral key and the two ciphertexts, one after the other.
pub proof fn lemma_action_layout<A>(action: WireAction<A>)
    ensures
        action.bytes().len() == 820,
        action.bytes().subrange(0, 32) == action.cv_net@,
        action.bytes().subrange(32, 64) == action.nullifier@,
        action.bytes().subrange(64, 96) == action.rk@,
        action.bytes().subrange(96, 128) == action.cmx@,
        action.bytes().subrange(128, 160) == action.encrypted_note.epk_bytes@,
        action.bytes().subrange(160, 740) == action.encrypted_note.enc_ciphertext@,
        action.bytes().subrange(740, 820) == action.encrypted_note.out_ciphertext@,
{
    let bytes = action.bytes();
    assert(bytes.subrange(0, 32) =~= action.cv_net@);
    assert(bytes.subrange(32, 64) =~= action.nullifier@);
    assert(bytes.subrange(64, 96) =~= action.rk@);
    assert(bytes.subrange(96, 128) =~= action.cmx@);
    assert(bytes.subrange(128, 160) =~= action.encrypted_note.epk_bytes@);
    assert(bytes.subrange(160, 740) =~= action.encrypted_note.enc_ciphertext@);
    assert(bytes.subrange(740, 820) =~= action.encrypted_note.out_ciphertext@);
}

/// Each action has its place among the bytes of all.
proof fn lemma_actions_layout(actions: Seq<WireAction<[u8; 64]>>)
    ensures
        actions_bytes(actions).len() == 820 * actions.len(),
        forall|i: int|
            0 <= i < actions.len() ==> actions_bytes(actions).subrange(820 * i, 820 * i + 820) == (
            #[trigger] actions[i]).bytes(),
    decreases actions.len(),
{
    if actions.len() > 0 {
        let first = actions.drop_last();
        let all = actions_bytes(actions);
        let before = actions_bytes(first);
        lemma_actions_layout(first);
        lemma_action_layout(actions.last());
        assert forall|i: int| 0 <= i < actions.len() implies all.subrange(820 * i, 820 * i + 820)
            == (#[trigger] actions[i]).bytes() by {
            if i < first.len() {
                assert(first[i] == actions[i]);
                assert(all.subrange(820 * i, 820 * i + 820) =~= before.subrange(
                    820 * i,
                    820 * i + 820,
                ));
            } else {
                assert(all.subrange(820 * i, 820 * i + 820) =~= actions.last().bytes());
            }
        }
    }
}

/// Each signature has its place among the bytes of all.
proof fn lemma_signatures_layout(actions: Seq<WireAction<[u8; 64]>>)
    ensures
        signatures_bytes(actions).len() == 64 * actions.len(),
        forall|i: int|
            0 <= i < actions.len() ==> signatures_bytes(actions).subrange(64 * i, 64 * i + 64) == (
            #[trigger] actions[i]).authorization@,
    decreases actions.len(),
{
    if actions.len() > 0 {
        let first = actions.drop_last();
        let all = signatures_bytes(actions);
        let before = signatures_bytes(first);
        lemma_signatures_layout(first);
        assert forall|i: int| 0 <= i < actions.len() implies all.subrange(64 * i, 64 * i + 64) == (
        #[trigger] actions[i]).authorization@ by {
            if i < first.len() {
                assert(first[i] == actions[i]);
                assert(all.subrange(64 * i, 64 * i + 64) =~= before.subrange(64 * i, 64 * i + 64));
            } else {
                assert(all.subrange(64 * i, 64 * i + 64) =~= actions.last().authorization@);
            }
        }
    }
}

/// A number that counts something takes as many bytes as it should, and they hold it, the least
/// significant byte first.
pub proof fn lemma_count_layout(n: nat)
    requires
        n <= 0x0200_0000,
    ensures
        compact_bytes(n).len() == count_width(n),
        n < 253 ==> compact_bytes(n)[0] == n,
        253 <= n < 65536 ==> compact_bytes(n)[0] == 253 && le_value(compact_bytes(n).skip(1)) == n,
        65536 <= n ==> compact_bytes(n)[0] == 254 && le_value(compact_bytes(n).skip(1)) == n,
{
    lemma_le_bytes_value(n, 2);
    lemma_le_bytes_value(n, 4);
    reveal_with_fuel(numbers, 5);
    if 253 <= n < 65536 {
        assert(compact_bytes(n).skip(1) =~= le_bytes(n, 2));
    } else if 65536 <= n {
        assert(compact_bytes(n).skip(1) =~= le_bytes(n, 4));
    }
}

/// Whether the parts of a bundle have their places among bytes: the number of its actions, the
/// actions, a byte with the flags, eight bytes with the balance, the anchor, the size of the proof, the
/// proof, the signatures of the actions and the binding signature.
pub open spec fn laid_out(bundle: WireView, bytes: Seq<u8>) -> bool {
    let n = bundle.actions.len() as int;
    let a = count_width(bundle.actions.len());
    let f = a + 820 * n;
    let p = f + 41 + count_width(bundle.proof.len());
    let g = p + bundle.proof.len();
    let b = g + 64 * n;
    &&& bytes.len() >= b + 64
    &&& bytes.take(a) == compact_bytes(bundle.actions.len())
    &&& forall|i: int|
        0 <= i < n ==> bytes.subrange(a + 820 * i, a + 820 * i + 820) == (
        #[trigger] bundle.actions[i]).bytes()
    &&& (bytes[f] % 2 == 1) == bundle.flags.spends_enabled
    &&& ((bytes[f] / 2) % 2 == 1) == bundle.flags.outputs_enabled
    &&& bytes[f] < 8
    &&& le_value(bytes.subrange(f + 1, f + 9)) == (if bundle.value_balance >= 0 {
        bundle.value_balance as int
    } else {
        0x1_0000_0000_0000_0000 + bundle.value_balance
    })
    &&& bytes.subrange(f + 9, f + 41) == bundle.anchor@
    &&& bytes.subrange(f + 41, p) == compact_bytes(bundle.proof.len())
    &&& bytes.subrange(p, g) == bundle.proof
    &&& forall|i: int|
        0 <= i < n ==> bytes.subrange(g + 64 * i, g + 64 * i + 64) == (
        #[trigger] bundle.actions[i]).authorization@
    &&& bytes.subrange(b, b + 64) == bundle.binding_signature@
}

/// The parts of a bundle that is written have their places, and nothing follows them. The third bit of
/// the flags, in an Ironwood bundle, enables payments to other receivers, and is clear in the others.
#[verifier::spinoff_prover]
#[verifier::rlimit(40)]
pub proof fn lemma_bundle_layout(bundle: WireView, version: BundleVersion, rest: Seq<u8>)
    requires
        bundle_write_error(Some(bundle), version) is None,
    ensures
        ({
            let bytes = bundle_bytes(Some(bundle), version) + rest;
            let f = count_width(bundle.actions.len()) + 820 * bundle.actions.len();
            &&& laid_out(bundle, bytes)
            &&& (bytes[f] >= 4) == (version is IronwoodV3 && bundle.flags.cross_address_enabled)
            &&& bundle_bytes(Some(bundle), version).len() == f + 41 + count_width(
                bundle.proof.len(),
            ) + bundle.proof.len() + 64 * bundle.actions.len() + 64
        }),
{
    let n = bundle.actions.len() as int;
    let count = compact_bytes(bundle.actions.len());
    let body = actions_bytes(bundle.actions);
    let flag = seq![bundle.flags.byte(version)];
    let number = le_bytes(unsigned(bundle.value_balance as int), 8);
    let size = compact_bytes(bundle.proof.len());
    let signatures = signatures_bytes(bundle.actions);
    let bytes = bundle_bytes(Some(bundle), version) + rest;
    let a = count_width(bundle.actions.len());
    let f = a + 820 * n;
    let p = f + 41 + count_width(bundle.proof.len());
    let g = p + bundle.proof.len();
    let b = g + 64 * n;
    lemma_count_layout(bundle.actions.len());
    lemma_count_layout(bundle.proof.len());
    lemma_actions_layout(bundle.actions);
    lemma_signatures_layout(bundle.actions);
    lemma_le_bytes_value(unsigned(bundle.value_balance as int), 8);
    reveal_with_fuel(numbers, 9);
    assert(bytes.take(a) =~= count);
    assert(bytes.subrange(a, f) =~= body);
    assert(bytes[f] == flag[0]);
    assert(bytes.subrange(f + 1, f + 9) =~= number);
    assert(bytes.subrange(f + 9, f + 41) =~= bundle.anchor@);
    assert(bytes.subrange(f + 41, p) =~= size);
    assert(bytes.subrange(p, g) =~= bundle.proof);
    assert(bytes.subrange(g, b) =~= signatures);
    assert(bytes.subrange(b, b + 64) =~= bundle.binding_signature@);
    assert forall|i: int| 0 <= i < n implies bytes.subrange(a + 820 * i, a + 820 * i + 820) == (
    #[trigger] bundle.actions[i]).bytes() by {
        assert(bytes.subrange(a + 820 * i, a + 820 * i + 820) =~= bytes.subrange(a, f).subrange(
            820 * i,
            820 * i + 820,
        ));
    }
    assert forall|i: int| 0 <= i < n implies bytes.subrange(g + 64 * i, g + 64 * i + 64) == (
    #[trigger] bundle.actions[i]).authorization@ by {
        assert(bytes.subrange(g + 64 * i, g + 64 * i + 64) =~= bytes.subrange(g, b).subrange(
            64 * i,
            64 * i + 64,
        ));
    }
}

/// A bundle that is read consists of the parts that have their places among the bytes, and its proof
/// takes 2720 bytes and 2272 for each action, except in the first version of Orchard bundles.
pub proof fn lemma_read_layout(bytes: Seq<u8>, version: BundleVersion)
    requires
        bundle_read(bytes, version) is Ok,
    ensures
        match (bundle_read(bytes, version)->Ok_0).0 {
            Some(bundle) => {
                &&& laid_out(bundle, bytes)
                &&& bundle.actions.len() > 0
                &&& !(version is OrchardInsecureV1) ==> bundle.proof.len() == 2720 + 2272
                    * bundle.actions.len()
                &&& bundle.flags.cross_address_enabled == (match version {
                    BundleVersion::IronwoodV3 => bytes[count_width(bundle.actions.len()) + 820
                        * bundle.actions.len()] >= 4,
                    BundleVersion::OrchardV3 => false,
                    _ => true,
                })
            },
            None => bytes.len() > 0 && bytes[0] == 0 && (bundle_read(bytes, version)->Ok_0).1
                == bytes.skip(1),
        },
{
    lemma_bundle_read_write(bytes, version);
    let (bundle, rest) = bundle_read(bytes, version)->Ok_0;
    match bundle {
        Some(b) => {
            lemma_bundle_layout(b, version, rest);
        },
        None => {
            assert(bytes =~= seq![0u8] + rest);
            assert(bytes.skip(1) =~= rest);
        },
    }
}

/// An action is refused for the first of its parts that is not what it should be: the value
/// commitment, then the nullifier, then the verification key, then the note commitment.
pub proof fn lemma_action_refused(bytes: Seq<u8>)
    requires
        bytes.len() >= 820,
    ensures
        match action_read(bytes) {
            Ok((action, rest)) => action.valid() && rest == bytes.skip(820) && action.bytes()
                == bytes.take(820),
            Err(ReadError::InvalidNullifier) => !pallas_base_canonical(bytes.subrange(32, 64)),
            Err(ReadError::InvalidCmx) => pallas_base_canonical(bytes.subrange(32, 64))
                && !pallas_base_canonical(bytes.subrange(96, 128)),
            Err(ReadError::InvalidVerificationKey) | Err(ReadError::InvalidAction) =>
                pallas_base_canonical(bytes.subrange(32, 64)),
            Err(e) => e is InvalidValueCommitment,
        },
{
    let b1 = bytes.skip(32);
    let b2 = b1.skip(32);
    let b3 = b2.skip(32);
    let b4 = b3.skip(32);
    lemma_array_exists::<32>(bytes.take(32));
    lemma_array_exists::<32>(b1.take(32));
    lemma_array_exists::<32>(b2.take(32));
    lemma_array_exists::<32>(b3.take(32));
    lemma_array_exists::<32>(b4.take(32));
    assert(b1.take(32) =~= bytes.subrange(32, 64));
    assert(b3.take(32) =~= bytes.subrange(96, 128));
    if action_read(bytes) is Ok {
        lemma_action_read_write(bytes);
        let (action, rest) = action_read(bytes)->Ok_0;
        lemma_action_layout(action);
        assert(rest =~= bytes.skip(820));
        assert(action.bytes() =~= bytes.take(820));
    }
}

} // verus!
