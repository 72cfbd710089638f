//! What fee and change calculation sees of the Sapling part of a transaction.

use vstd::prelude::*;

use sapling_crypto::builder::BundleType as SaplingBundleType;

use crate::value::Zatoshis;

verus! {

/// The kinds of Sapling bundle, which differ in how they are padded.
#[derive(Clone, Copy, Debug, PartialEq, Eq, Structural)]
pub enum BundleType {
    /// A bundle with spends and outputs; where there are any, or where a bundle is required in
    /// any case, it is padded to one spend and two outputs.
    Transactional { bundle_required: bool },
    /// The bundle of a coinbase transaction, which has no spends and is not padded.
    Coinbase,
}

/// A Sapling note that is spent.
#[derive(Debug, PartialEq, Eq)]
pub struct NoteInput<NoteRef> {
    pub note_id: NoteRef,
    pub value: Zatoshis,
}

/// A minimized view of a Sapling bundle, for fee and change calculation.
#[derive(Debug)]
pub struct BundleView<NoteRef> {
    pub bundle_type: BundleType,
    pub inputs: Vec<NoteInput<NoteRef>>,
    pub outputs: Vec<Zatoshis>,
}

impl BundleType {
    /// How many spends a bundle has when `requested` are asked for, if it can have them.
    pub open spec fn spends_needed(self, requested: nat) -> Option<nat> {
        match self {
            BundleType::Transactional { bundle_required } => Some(
                if requested == 0 && bundle_required {
                    1
                } else {
                    requested
                },
            ),
            BundleType::Coinbase => if requested == 0 {
                Some(0)
            } else {
                None
            },
        }
    }

    /// How many outputs a bundle has when so many spends and outputs are asked for, if it can
    /// have them.
    pub open spec fn outputs_needed(self, spends: nat, outputs: nat) -> Option<nat> {
        match self {
            BundleType::Transactional { bundle_required } => Some(
                if (bundle_required || spends > 0 || outputs > 0) && outputs < 2 {
                    2
                } else {
                    outputs
                },
            ),
            BundleType::Coinbase => if spends == 0 {
                Some(outputs)
            } else {
                None
            },
        }
    }

    /// How many spends a bundle of this type has when `requested` are asked for.
    ///
    /// This is `sapling_crypto::builder::BundleType::num_spends`: a transactional bundle has as many as
    /// asked for, but at least one if a bundle is required; a coinbase bundle can have none.
    #[verifier::external_body]
    pub(crate) fn num_spends(&self, requested: usize) -> (r: Result<usize, &'static str>)
        ensures
            match (r, self.spends_needed(requested as nat)) {
                (Ok(n), Some(needed)) => n == needed,
                (Err(message), None) => message@ == "Spends not allowed in coinbase bundles"@,
                _ => false,
            },
    {
        let bundle_type = match *self {
            BundleType::Transactional { bundle_required } => SaplingBundleType::Transactional { bundle_required },
            BundleType::Coinbase => SaplingBundleType::Coinbase,
        };
        bundle_type.num_spends(requested)
    }

    /// How many outputs a bundle of this type has when so many spends and outputs are asked for.
    ///
    /// This is `sapling_crypto::builder::BundleType::num_outputs`: a transactional bundle that has
    /// anything in it, or is required, has at least two outputs; a coinbase bundle can have no
    /// spends, and has as many outputs as asked for.
    #[verifier::external_body]
    pub(crate) fn num_outputs(&self, spends: usize, outputs: usize) -> (r: Result<
        usize,
        &'static str,
    >)
        ensures
            match (r, self.outputs_needed(spends as nat, outputs as nat)) {
                (Ok(n), Some(needed)) => n == needed,
                (Err(message), None) => message@ == "Spends not allowed in coinbase bundles"@,
                _ => false,
            },
    {
        let bundle_type = match *self {
            BundleType::Transactional { bundle_required } => SaplingBundleType::Transactional { bundle_required },
            BundleType::Coinbase => SaplingBundleType::Coinbase,
        };
        bundle_type.num_outputs(spends, outputs)
    }
}

impl<NoteRef> BundleView<NoteRef> {
    /// The identifiers of the notes that are spent.
    pub open spec fn ids(&self) -> Seq<NoteRef> {
        self.inputs@.map_values(|i: NoteInput<NoteRef>| i.note_id)
    }

    /// What the notes that are spent are worth.
    pub open spec fn input_worths(&self) -> Seq<nat> {
        self.inputs@.map_values(|i: NoteInput<NoteRef>| i.value@)
    }

    /// What the outputs are worth.
    pub open spec fn output_worths(&self) -> Seq<nat> {
        self.outputs@.map_values(|o: Zatoshis| o@)
    }
}

} // verus!
