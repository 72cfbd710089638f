//! A bundle that is written is read back, and one that is read was written in the one way in which
//! it can be written.

use vstd::array::spec_array_fill_for_copy_type;
use vstd::array::spec_array_update;
use vstd::prelude::*;

use crate::field::array_of;
use crate::field::lemma_array_of;
use crate::field::pallas_base_canonical;
use crate::pool::lemma_flags_read_write;
use crate::pool::lemma_flags_write_read;
use crate::pool::BundleVersion;
use crate::pool::Flags;

use super::encoding::balance_valid;
use super::encoding::compact_bytes;
use super::encoding::compact_size;
use super::encoding::le_bytes;
use super::encoding::lemma_compact_read_write;
use super::encoding::lemma_compact_write_read;
use super::encoding::lemma_le_bytes_value;
use super::encoding::lemma_value_le_bytes;
use super::encoding::numbers;
use super::encoding::take;
use super::encoding::unsigned;
use super::encoding::ReadError;
use super::encoding::MAX_COMPACT_SIZE;
use super::orchard::action_read;
use super::orchard::actions_bytes;
use super::orchard::actions_read;
use super::orchard::anchor_read;
use super::orchard::array_read;
use super::orchard::authorization_read;
use super::orchard::authorize;
use super::orchard::balance_read;
use super::orchard::bundle_bytes;
use super::orchard::bundle_read;
use super::orchard::bundle_view;
use super::orchard::bundle_write_error;
use super::orchard::cmx_read;
use super::orchard::flags_read;
use super::orchard::gives_bundle;
use super::orchard::note_ciphertext_read;
use super::orchard::nullifier_read;
use super::orchard::proof_read;
use super::orchard::proof_size;
use super::orchard::signatures_bytes;
use super::orchard::signatures_read;
use super::orchard::value_commitment_read;
use super::orchard::verification_key_read;
use super::orchard::written;
use super::orchard::TransmittedNoteCiphertext;
use super::orchard::WireAction;
use super::orchard::WireBundle;
use super::orchard::WireView;
use super::orchard::WriteError;

verus! {

/// Bytes in front of others are taken from them.
proof fn lemma_take(a: Seq<u8>, rest: Seq<u8>)
    ensures
        take(a + rest, a.len()) == Ok::<(Seq<u8>, Seq<u8>), ReadError>((a, rest)),
{
    assert((a + rest).take(a.len() as int) =~= a);
    assert((a + rest).skip(a.len() as int) =~= rest);
}

/// An array in front of bytes is read from them.
proof fn lemma_array_write_read<const N: usize>(a: [u8; N], rest: Seq<u8>)
    ensures
        array_read::<N>(a@ + rest) == Ok::<([u8; N], Seq<u8>), ReadError>((a, rest)),
{
    lemma_take(a@, rest);
    lemma_array_of(a);
    assert(a@.len() == N);
}

/// An array that is read from bytes is in front of them.
proof fn lemma_array_read_write<const N: usize>(bytes: Seq<u8>)
    requires
        array_read::<N>(bytes) is Ok,
    ensures
        ({
            let (a, rest) = array_read::<N>(bytes)->Ok_0;
            bytes == a@ + rest
        }),
{
    let (a, rest) = array_read::<N>(bytes)->Ok_0;
    let front = bytes.take(N as int);
    lemma_array_exists::<N>(front);
    assert(a@ == front);
    assert(bytes =~= a@ + rest);
}

/// There is an array that starts with the given bytes.
proof fn lemma_array_front<const N: usize>(bytes: Seq<u8>, n: nat) -> (a: [u8; N])
    requires
        n <= N,
        bytes.len() == N,
    ensures
        forall|k: int| 0 <= k < n ==> #[trigger] a@[k] == bytes[k],
    decreases n,
{
    if n == 0 {
        spec_array_fill_for_copy_type::<u8, N>(0)
    } else {
        let a = lemma_array_front::<N>(bytes, (n - 1) as nat);
        spec_array_update(a, n - 1, bytes[n - 1])
    }
}

/// As many bytes as an array holds are those of an array.
pub proof fn lemma_array_exists<const N: usize>(bytes: Seq<u8>)
    requires
        bytes.len() == N,
    ensures
        array_of::<N>(bytes)@ == bytes,
{
    let a = lemma_array_front::<N>(bytes, N as nat);
    assert(a@ =~= bytes);
}

/// An encrypted note that is written is read back.
proof fn lemma_note_write_read(note: TransmittedNoteCiphertext, rest: Seq<u8>)
    ensures
        note_ciphertext_read(
            note.epk_bytes@ + (note.enc_ciphertext@ + (note.out_ciphertext@ + rest)),
        ) == Ok::<(TransmittedNoteCiphertext, Seq<u8>), ReadError>((note, rest)),
{
    lemma_array_write_read(note.epk_bytes, note.enc_ciphertext@ + (note.out_ciphertext@ + rest));
    lemma_array_write_read(note.enc_ciphertext, note.out_ciphertext@ + rest);
    lemma_array_write_read(note.out_ciphertext, rest);
}

/// An encrypted note that is read was written.
proof fn lemma_note_read_write(bytes: Seq<u8>)
    requires
        note_ciphertext_read(bytes) is Ok,
    ensures
        ({
            let (note, rest) = note_ciphertext_read(bytes)->Ok_0;
            bytes == note.epk_bytes@ + (note.enc_ciphertext@ + (note.out_ciphertext@ + rest))
        }),
{
    lemma_array_read_write::<32>(bytes);
    let bytes = array_read::<32>(bytes)->Ok_0.1;
    lemma_array_read_write::<580>(bytes);
    let bytes = array_read::<580>(bytes)->Ok_0.1;
    lemma_array_read_write::<80>(bytes);
}

/// An action without its authorization.
pub open spec fn without_auth<A>(action: WireAction<A>) -> WireAction<()> {
    WireAction {
        cv_net: action.cv_net,
        nullifier: action.nullifier,
        rk: action.rk,
        cmx: action.cmx,
        encrypted_note: action.encrypted_note,
        authorization: (),
    }
}

/// Whether two actions differ in their authorization at most.
pub open spec fn same_parts<A, B>(a: WireAction<A>, b: WireAction<B>) -> bool {
    &&& a.cv_net == b.cv_net
    &&& a.nullifier == b.nullifier
    &&& a.rk == b.rk
    &&& a.cmx == b.cmx
    &&& a.encrypted_note == b.encrypted_note
}

/// The bytes of an action, the other way round.
proof fn lemma_action_bytes<A>(action: WireAction<A>, rest: Seq<u8>)
    ensures
        action.bytes() + rest == action.cv_net@ + (action.nullifier@ + (action.rk@ + (action.cmx@ + (
        action.encrypted_note.epk_bytes@ + (action.encrypted_note.enc_ciphertext@ + (
        action.encrypted_note.out_ciphertext@ + rest)))))),
{
    assert(action.bytes() + rest =~= action.cv_net@ + (action.nullifier@ + (action.rk@ + (action.cmx@
        + (action.encrypted_note.epk_bytes@ + (action.encrypted_note.enc_ciphertext@ + (
    action.encrypted_note.out_ciphertext@ + rest)))))));
}

/// An action that is written is read back.
pub proof fn lemma_action_write_read<A>(action: WireAction<A>, rest: Seq<u8>)
    requires
        action.valid(),
    ensures
        action_read(action.bytes() + rest) == Ok::<(WireAction<()>, Seq<u8>), ReadError>(
            (without_auth(action), rest),
        ),
{
    lemma_action_bytes(action, rest);
    let note = action.encrypted_note;
    let b4 = note.epk_bytes@ + (note.enc_ciphertext@ + (note.out_ciphertext@ + rest));
    let b3 = action.cmx@ + b4;
    let b2 = action.rk@ + b3;
    let b1 = action.nullifier@ + b2;
    lemma_array_write_read(action.cv_net, b1);
    lemma_array_write_read(action.nullifier, b2);
    lemma_array_write_read(action.rk, b3);
    lemma_array_write_read(action.cmx, b4);
    lemma_note_write_read(note, rest);
    assert(value_commitment_read(action.cv_net@ + b1) == Ok::<([u8; 32], Seq<u8>), ReadError>(
        (action.cv_net, b1),
    ));
    assert(nullifier_read(b1) == Ok::<([u8; 32], Seq<u8>), ReadError>((action.nullifier, b2)));
    assert(verification_key_read(b2) == Ok::<([u8; 32], Seq<u8>), ReadError>((action.rk, b3)));
    assert(cmx_read(b3) == Ok::<([u8; 32], Seq<u8>), ReadError>((action.cmx, b4)));
}

/// An action that is read was written in the one way in which it can be written.
pub proof fn lemma_action_read_write(bytes: Seq<u8>)
    requires
        action_read(bytes) is Ok,
    ensures
        ({
            let (action, rest) = action_read(bytes)->Ok_0;
            action.valid() && bytes == action.bytes() + rest
        }),
{
    let (action, rest) = action_read(bytes)->Ok_0;
    lemma_array_read_write::<32>(bytes);
    let b1 = value_commitment_read(bytes)->Ok_0.1;
    lemma_array_read_write::<32>(b1);
    let b2 = nullifier_read(b1)->Ok_0.1;
    lemma_array_read_write::<32>(b2);
    let b3 = verification_key_read(b2)->Ok_0.1;
    lemma_array_read_write::<32>(b3);
    let b4 = cmx_read(b3)->Ok_0.1;
    lemma_note_read_write(b4);
    lemma_action_bytes(action, rest);
}

/// Actions that are written are read back.
proof fn lemma_actions_write_read(actions: Seq<WireAction<[u8; 64]>>, rest: Seq<u8>)
    requires
        forall|i: int| 0 <= i < actions.len() ==> (#[trigger] actions[i]).valid(),
    ensures
        actions_read(actions_bytes(actions) + rest, actions.len()) == Ok::<
            (Seq<WireAction<()>>, Seq<u8>),
            ReadError,
        >((actions.map_values(|a: WireAction<[u8; 64]>| without_auth(a)), rest)),
    decreases actions.len(),
{
    let parts = actions.map_values(|a: WireAction<[u8; 64]>| without_auth(a));
    if actions.len() == 0 {
        assert(actions_bytes(actions) + rest =~= rest);
        assert(parts =~= Seq::empty());
    } else {
        let front = actions.drop_last();
        let last = actions.last();
        assert forall|i: int| 0 <= i < front.len() implies (#[trigger] front[i]).valid() by {
            assert(actions[i].valid());
        }
        lemma_actions_write_read(front, last.bytes() + rest);
        lemma_action_write_read(last, rest);
        assert(actions_bytes(actions) + rest =~= actions_bytes(front) + (last.bytes() + rest));
        assert(front.map_values(|a: WireAction<[u8; 64]>| without_auth(a)).push(without_auth(last))
            =~= parts);
    }
}

/// Signatures that are written are read back.
proof fn lemma_signatures_write_read(actions: Seq<WireAction<[u8; 64]>>, rest: Seq<u8>)
    ensures
        signatures_read(signatures_bytes(actions) + rest, actions.len()) == Ok::<
            (Seq<[u8; 64]>, Seq<u8>),
            ReadError,
        >((actions.map_values(|a: WireAction<[u8; 64]>| a.authorization), rest)),
    decreases actions.len(),
{
    let signatures = actions.map_values(|a: WireAction<[u8; 64]>| a.authorization);
    if actions.len() == 0 {
        assert(signatures_bytes(actions) + rest =~= rest);
        assert(signatures =~= Seq::empty());
    } else {
        let front = actions.drop_last();
        let last = actions.last();
        lemma_signatures_write_read(front, last.authorization@ + rest);
        lemma_array_write_read(last.authorization, rest);
        assert(signatures_bytes(actions) + rest =~= signatures_bytes(front) + (last.authorization@
            + rest));
        assert(front.map_values(|a: WireAction<[u8; 64]>| a.authorization).push(last.authorization)
            =~= signatures);
    }
}

/// A balance that is written is read back.
proof fn lemma_balance_write_read(value: i64, rest: Seq<u8>)
    requires
        balance_valid(value as int),
    ensures
        balance_read(le_bytes(unsigned(value as int), 8) + rest) == Ok::<(i64, Seq<u8>), ReadError>(
            (value, rest),
        ),
{
    let number = le_bytes(unsigned(value as int), 8);
    lemma_le_bytes_value(unsigned(value as int), 8);
    reveal_with_fuel(numbers, 9);
    lemma_take(number, rest);
}

/// A balance that is read was written.
proof fn lemma_balance_read_write(bytes: Seq<u8>)
    requires
        balance_read(bytes) is Ok,
    ensures
        ({
            let (value, rest) = balance_read(bytes)->Ok_0;
            balance_valid(value as int) && bytes == le_bytes(unsigned(value as int), 8) + rest
        }),
{
    let (value, rest) = balance_read(bytes)->Ok_0;
    let number = bytes.take(8);
    lemma_value_le_bytes(number);
    reveal_with_fuel(numbers, 9);
    assert(bytes =~= number + rest);
}

/// What follows the actions of a bundle is read back when it is written.
proof fn lemma_authorization_write_read(bundle: WireView, version: BundleVersion, rest: Seq<u8>)
    requires
        bundle.valid(version),
        bundle.write_error(version) is None,
    ensures
        authorization_read(
            bundle.actions.map_values(|a: WireAction<[u8; 64]>| without_auth(a)),
            bundle.authorization_bytes(version) + rest,
            version,
        ) == Ok::<(WireView, Seq<u8>), ReadError>((bundle, rest)),
{
    let parts = bundle.actions.map_values(|a: WireAction<[u8; 64]>| without_auth(a));
    let signatures = bundle.actions.map_values(|a: WireAction<[u8; 64]>| a.authorization);
    let flag = seq![bundle.flags.byte(version)];
    let number = le_bytes(unsigned(bundle.value_balance as int), 8);
    let size = compact_bytes(bundle.proof.len());
    let b6 = bundle.binding_signature@ + rest;
    let b5 = signatures_bytes(bundle.actions) + b6;
    let b4 = size + (bundle.proof + b5);
    let b3 = bundle.anchor@ + b4;
    let b2 = number + b3;
    let b1 = flag + b2;
    lemma_same_bytes(
        flag,
        number,
        bundle.anchor@,
        size,
        bundle.proof,
        signatures_bytes(bundle.actions),
        bundle.binding_signature@,
        rest,
    );
    lemma_take(flag, b2);
    lemma_flags_write_read(bundle.flags, version);
    assert(flags_read(b1, version) == Ok::<(Flags, Seq<u8>), ReadError>((bundle.flags, b2)));
    lemma_balance_write_read(bundle.value_balance, b3);
    lemma_array_write_read(bundle.anchor, b4);
    assert(anchor_read(b3) == Ok::<([u8; 32], Seq<u8>), ReadError>((bundle.anchor, b4)));
    lemma_compact_write_read(bundle.proof.len(), bundle.proof + b5);
    lemma_take(bundle.proof, b5);
    assert(proof_read(b4) == Ok::<(Seq<u8>, Seq<u8>), ReadError>((bundle.proof, b5)));
    lemma_signatures_write_read(bundle.actions, b6);
    lemma_array_write_read(bundle.binding_signature, rest);
    assert(Seq::new(parts.len(), |i: int| authorize(parts[i], signatures[i])) =~= bundle.actions);
}

/// In what order bytes are put together makes no difference.
proof fn lemma_three_parts(a: Seq<u8>, b: Seq<u8>, c: Seq<u8>, rest: Seq<u8>)
    ensures
        a + (b + (c + rest)) == a + (b + c) + rest,
{
    assert(a + (b + (c + rest)) =~= a + (b + c) + rest);
}

/// A bundle that is written, whatever follows it, is read back, and what follows it is left.
pub proof fn lemma_bundle_write_read(
    bundle: Option<WireView>,
    version: BundleVersion,
    rest: Seq<u8>,
)
    requires
        bundle matches Some(b) ==> b.valid(version),
        bundle_write_error(bundle, version) is None,
    ensures
        bundle_read(bundle_bytes(bundle, version) + rest, version) == Ok::<
            (Option<WireView>, Seq<u8>),
            ReadError,
        >((bundle, rest)),
{
    match bundle {
        Some(b) => {
            let tail = b.authorization_bytes(version) + rest;
            let body = actions_bytes(b.actions) + tail;
            lemma_three_parts(
                compact_bytes(b.actions.len()),
                actions_bytes(b.actions),
                b.authorization_bytes(version),
                rest,
            );
            lemma_compact_write_read(b.actions.len(), body);
            lemma_actions_write_read(b.actions, tail);
            lemma_authorization_write_read(b, version, rest);
        },
        None => {
            lemma_compact_write_read(0, rest);
        },
    }
}

/// Reading what a bundle was written as into an empty buffer, in the same version, gives the bundle
/// back and leaves nothing. The buffer holds a single zero just if there is no bundle.
pub proof fn lemma_written_is_read(
    bundle: Option<WireView>,
    version: BundleVersion,
    wrote: Result<(), WriteError>,
    buffer: Seq<u8>,
    read: Result<Option<WireBundle>, ReadError>,
    rest: Seq<u8>,
)
    requires
        bundle matches Some(b) ==> b.valid(version),
        written(wrote, Seq::empty(), buffer, bundle, version),
        wrote is Ok,
        gives_bundle(read, rest, bundle_read(buffer, version)),
    ensures
        read matches Ok(b) && bundle_view(b) == bundle,
        rest == Seq::<u8>::empty(),
        bundle is None <==> buffer == seq![0u8],
{
    let bytes = bundle_bytes(bundle, version);
    assert(buffer =~= bytes);
    assert(bytes + Seq::<u8>::empty() =~= bytes);
    lemma_bundle_write_read(bundle, version, Seq::empty());
    match bundle {
        Some(b) => {
            assert(compact_bytes(b.actions.len()).len() >= 1);
            assert(bytes.len() > 1);
        },
        None => {
            assert(bytes =~= seq![0u8]);
        },
    }
}

/// Actions that are read were written.
proof fn lemma_actions_read_write(bytes: Seq<u8>, n: nat, actions: Seq<WireAction<[u8; 64]>>)
    requires
        actions_read(bytes, n) is Ok,
        actions.len() == n,
        forall|i: int|
            0 <= i < n ==> same_parts(#[trigger] actions[i], actions_read(bytes, n)->Ok_0.0[i]),
    ensures
        forall|i: int| 0 <= i < n ==> (#[trigger] actions[i]).valid(),
        bytes == actions_bytes(actions) + actions_read(bytes, n)->Ok_0.1,
    decreases n,
{
    if n == 0 {
        assert(bytes =~= actions_bytes(actions) + bytes);
    } else {
        let m = (n - 1) as nat;
        let (parts, middle) = actions_read(bytes, m)->Ok_0;
        let (last_part, rest) = action_read(middle)->Ok_0;
        lemma_parts_len(bytes, m);
        let front = actions.drop_last();
        let last = actions.last();
        assert forall|i: int| 0 <= i < m implies same_parts(#[trigger] front[i], parts[i]) by {
            assert(front[i] == actions[i]);
            assert(parts.push(last_part)[i] == parts[i]);
        }
        lemma_actions_read_write(bytes, m, front);
        lemma_action_read_write(middle);
        assert(same_parts(actions[m as int], last_part));
        assert(bytes =~= actions_bytes(actions) + rest);
        assert forall|i: int| 0 <= i < n implies (#[trigger] actions[i]).valid() by {
            if i < m {
                assert(front[i] == actions[i]);
            }
        }
    }
}

/// As many actions are read as are asked for.
proof fn lemma_parts_len(bytes: Seq<u8>, n: nat)
    requires
        actions_read(bytes, n) is Ok,
    ensures
        actions_read(bytes, n)->Ok_0.0.len() == n,
    decreases n,
{
    if n > 0 {
        lemma_parts_len(bytes, (n - 1) as nat);
    }
}

/// Signatures that are read were written.
proof fn lemma_signatures_read_write(bytes: Seq<u8>, n: nat, actions: Seq<WireAction<[u8; 64]>>)
    requires
        signatures_read(bytes, n) is Ok,
        actions.len() == n,
        forall|i: int|
            0 <= i < n ==> (#[trigger] actions[i]).authorization == signatures_read(
                bytes,
                n,
            )->Ok_0.0[i],
    ensures
        bytes == signatures_bytes(actions) + signatures_read(bytes, n)->Ok_0.1,
        signatures_read(bytes, n)->Ok_0.0.len() == n,
    decreases n,
{
    if n == 0 {
        assert(bytes =~= signatures_bytes(actions) + bytes);
    } else {
        let m = (n - 1) as nat;
        let (signatures, middle) = signatures_read(bytes, m)->Ok_0;
        let (signature, rest) = array_read::<64>(middle)->Ok_0;
        lemma_signatures_len(bytes, m);
        let front = actions.drop_last();
        let last = actions.last();
        assert forall|i: int| 0 <= i < m implies (#[trigger] front[i]).authorization
            == signatures[i] by {
            assert(front[i] == actions[i]);
            assert(signatures.push(signature)[i] == signatures[i]);
        }
        lemma_signatures_read_write(bytes, m, front);
        lemma_array_read_write::<64>(middle);
        assert(actions[m as int].authorization == signature);
        assert(bytes =~= signatures_bytes(actions) + rest);
    }
}

/// As many signatures are read as are asked for.
proof fn lemma_signatures_len(bytes: Seq<u8>, n: nat)
    requires
        signatures_read(bytes, n) is Ok,
    ensures
        signatures_read(bytes, n)->Ok_0.0.len() == n,
    decreases n,
{
    if n > 0 {
        lemma_signatures_len(bytes, (n - 1) as nat);
    }
}

/// What follows the actions of a bundle was written, when it is read.
#[verifier::rlimit(40)]
proof fn lemma_authorization_read_write(
    parts: Seq<WireAction<()>>,
    bytes: Seq<u8>,
    version: BundleVersion,
)
    requires
        authorization_read(parts, bytes, version) is Ok,
    ensures
        ({
            let (bundle, rest) = authorization_read(parts, bytes, version)->Ok_0;
            &&& bytes == bundle.authorization_bytes(version) + rest
            &&& bundle.actions.len() == parts.len()
            &&& forall|i: int|
                0 <= i < parts.len() ==> same_parts(#[trigger] bundle.actions[i], parts[i])
            &&& bundle.flags.representable(version)
            &&& bundle.proof.len() <= MAX_COMPACT_SIZE
            &&& balance_valid(bundle.value_balance as int)
            &&& pallas_base_canonical(bundle.anchor@)
            &&& version.proof_size_enforced() ==> bundle.proof.len() == proof_size(
                parts.len(),
            )
        }),
{
    let (bundle, rest) = authorization_read(parts, bytes, version)->Ok_0;
    let b2 = flags_read(bytes, version)->Ok_0.1;
    lemma_flags_read_write(bytes[0], version);
    assert(bytes.take(1)[0] == bytes[0]);
    assert(bytes =~= seq![bundle.flags.byte(version)] + b2);
    let b3 = balance_read(b2)->Ok_0.1;
    lemma_balance_read_write(b2);
    let b4 = anchor_read(b3)->Ok_0.1;
    lemma_array_read_write::<32>(b3);
    assert(b3 == bundle.anchor@ + b4);
    let after_size = compact_size(b4)->Ok_0.1;
    lemma_compact_read_write(b4);
    let b5 = proof_read(b4)->Ok_0.1;
    assert(after_size =~= bundle.proof + b5);
    let (signatures, b6) = signatures_read(b5, parts.len())->Ok_0;
    lemma_signatures_len(b5, parts.len());
    assert forall|i: int| 0 <= i < parts.len() implies same_parts(
        #[trigger] bundle.actions[i],
        parts[i],
    ) && bundle.actions[i].authorization == signatures[i] by {
        assert(bundle.actions[i] == authorize(parts[i], signatures[i]));
    }
    lemma_signatures_read_write(b5, parts.len(), bundle.actions);
    lemma_array_read_write::<64>(b6);
    lemma_same_bytes(
        seq![bundle.flags.byte(version)],
        le_bytes(unsigned(bundle.value_balance as int), 8),
        bundle.anchor@,
        compact_bytes(bundle.proof.len()),
        bundle.proof,
        signatures_bytes(bundle.actions),
        bundle.binding_signature@,
        rest,
    );
}

/// In what order bytes are put together makes no difference.
proof fn lemma_same_bytes(
    flag: Seq<u8>,
    number: Seq<u8>,
    anchor: Seq<u8>,
    size: Seq<u8>,
    proved: Seq<u8>,
    signatures: Seq<u8>,
    binding: Seq<u8>,
    rest: Seq<u8>,
)
    ensures
        flag + (number + (anchor + (size + (proved + (signatures + (binding + rest)))))) == flag + (
        number + (anchor + (size + (proved + (signatures + binding))))) + rest,
{
    assert(flag + (number + (anchor + (size + (proved + (signatures + (binding + rest))))))
        =~= flag + (number + (anchor + (size + (proved + (signatures + binding))))) + rest);
}

/// A bundle that is read is one, and was written in the one way in which it can be written.
#[verifier::rlimit(40)]
pub proof fn lemma_bundle_read_write(bytes: Seq<u8>, version: BundleVersion)
    requires
        bundle_read(bytes, version) is Ok,
    ensures
        ({
            let (bundle, rest) = bundle_read(bytes, version)->Ok_0;
            &&& bundle matches Some(b) ==> b.valid(version)
            &&& bundle_write_error(bundle, version) is None
            &&& bytes == bundle_bytes(bundle, version) + rest
        }),
{
    let (bundle, rest) = bundle_read(bytes, version)->Ok_0;
    let (n, b1) = compact_size(bytes)->Ok_0;
    lemma_compact_read_write(bytes);
    let (parts, b2) = actions_read(b1, n)->Ok_0;
    lemma_parts_len(b1, n);
    if n > 0 {
        let b = bundle->0;
        lemma_authorization_read_write(parts, b2, version);
        lemma_actions_read_write(b1, n, b.actions);
        lemma_three_parts(
            compact_bytes(n),
            actions_bytes(b.actions),
            b.authorization_bytes(version),
            rest,
        );
    }
}

/// No bytes but those that a bundle is written as are read as it: two encodings of the same bundle
/// are equal.
pub proof fn lemma_one_encoding(a: Seq<u8>, b: Seq<u8>, version: BundleVersion)
    requires
        bundle_read(a, version) is Ok,
        bundle_read(a, version) == bundle_read(b, version),
    ensures
        a == b,
{
    lemma_bundle_read_write(a, version);
    lemma_bundle_read_write(b, version);
}

/// What is read as the Orchard bundle of a version 6 transaction is read alike as an Ironwood
/// bundle: the two have the same format, but for a flag that an Orchard bundle cannot set.
pub proof fn lemma_orchard_reads_as_ironwood(bytes: Seq<u8>)
    requires
        bundle_read(bytes, BundleVersion::OrchardV3) is Ok,
    ensures
        bundle_read(bytes, BundleVersion::IronwoodV3) == bundle_read(
            bytes,
            BundleVersion::OrchardV3,
        ),
{
    let (n, b1) = compact_size(bytes)->Ok_0;
    let (parts, b2) = actions_read(b1, n)->Ok_0;
    if n > 0 {
        assert(flags_read(b2, BundleVersion::IronwoodV3) == flags_read(
            b2,
            BundleVersion::OrchardV3,
        ));
    }
}

/// A bundle of NU6.2, whose proof must have the expected size, is read alike where the size of the
/// proof is not looked at.
pub proof fn lemma_strict_reads_as_lenient(bytes: Seq<u8>)
    requires
        bundle_read(bytes, BundleVersion::OrchardV2) is Ok,
    ensures
        bundle_read(bytes, BundleVersion::OrchardInsecureV1) == bundle_read(
            bytes,
            BundleVersion::OrchardV2,
        ),
{
    let (n, b1) = compact_size(bytes)->Ok_0;
    let (parts, b2) = actions_read(b1, n)->Ok_0;
    if n > 0 {
        assert(flags_read(b2, BundleVersion::OrchardInsecureV1) == flags_read(
            b2,
            BundleVersion::OrchardV2,
        ));
    }
}

} // verus!
