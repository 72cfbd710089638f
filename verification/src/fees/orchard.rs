//! What fee and change calculation sees of the Orchard part of a transaction.

use vstd::prelude::*;

use crate::value::Zatoshis;

verus! {

/// A minimized view of an Orchard bundle, for fee and change calculation. The notes of the
/// Ironwood pool are part of it.
pub trait BundleView<NoteRef> {
    /// The type of the inputs of the bundle.
    type In: InputView<NoteRef>;

    /// The type of the outputs of the bundle.
    type Out: OutputView;

    /// The inputs of the bundle.
    spec fn input_seq(&self) -> Seq<Self::In>;

    /// The outputs of the bundle.
    spec fn output_seq(&self) -> Seq<Self::Out>;

    /// Returns the inputs of the bundle.
    fn inputs(&self) -> (r: &[Self::In])
        ensures
            r@ == self.input_seq(),
    ;

    /// Returns the outputs of the bundle.
    fn outputs(&self) -> (r: &[Self::Out])
        ensures
            r@ == self.output_seq(),
    ;
}

/// A minimized view of an Orchard input, for fee and change calculation.
pub trait InputView<NoteRef> {
    /// An identifier of the note that is spent.
    spec fn id(&self) -> NoteRef;

    /// What the note is worth.
    spec fn worth(&self) -> nat;

    /// Whether the note is of the Ironwood pool.
    spec fn of_ironwood(&self) -> bool;

    /// Returns an identifier of the note that is spent.
    fn note_id(&self) -> (r: &NoteRef)
        ensures
            *r == self.id(),
    ;

    /// Returns what the note is worth.
    fn value(&self) -> (r: Zatoshis)
        ensures
            r@ == self.worth(),
    ;

    /// Returns whether the note is of the Ironwood pool.
    fn is_ironwood(&self) -> (r: bool)
        ensures
            r == self.of_ironwood(),
    ;
}

/// A minimized view of an Orchard output, for fee and change calculation.
pub trait OutputView {
    /// What the output is worth.
    spec fn worth(&self) -> nat;

    /// Returns what the output is worth.
    fn value(&self) -> (r: Zatoshis)
        ensures
            r@ == self.worth(),
    ;
}

/// An Orchard or Ironwood note that is spent.
#[derive(Debug, PartialEq, Eq)]
pub struct NoteInput<NoteRef> {
    pub note_id: NoteRef,
    pub value: Zatoshis,
    pub ironwood: bool,
}

impl<NoteRef> InputView<NoteRef> for NoteInput<NoteRef> {
    open spec fn id(&self) -> NoteRef {
        self.note_id
    }

    open spec fn worth(&self) -> nat {
        self.value@
    }

    open spec fn of_ironwood(&self) -> bool {
        self.ironwood
    }

    fn note_id(&self) -> (r: &NoteRef) {
        &self.note_id
    }

    fn value(&self) -> (r: Zatoshis) {
        self.value
    }

    fn is_ironwood(&self) -> (r: bool) {
        self.ironwood
    }
}

impl OutputView for Zatoshis {
    open spec fn worth(&self) -> nat {
        self@
    }

    fn value(&self) -> (r: Zatoshis) {
        *self
    }
}

impl<'a, NoteRef, In: InputView<NoteRef>, Out: OutputView> BundleView<NoteRef> for (
    &'a [In],
    &'a [Out],
) {
    type In = In;

    type Out = Out;

    open spec fn input_seq(&self) -> Seq<In> {
        self.0@
    }

    open spec fn output_seq(&self) -> Seq<Out> {
        self.1@
    }

    fn inputs(&self) -> (r: &[In]) {
        self.0
    }

    fn outputs(&self) -> (r: &[Out]) {
        self.1
    }
}

/// A [`BundleView`] for an empty Orchard bundle.
pub struct EmptyBundleView;

impl<NoteRef> BundleView<NoteRef> for EmptyBundleView {
    type In = NoteInput<NoteRef>;

    type Out = Zatoshis;

    open spec fn input_seq(&self) -> Seq<NoteInput<NoteRef>> {
        Seq::empty()
    }

    open spec fn output_seq(&self) -> Seq<Zatoshis> {
        Seq::empty()
    }

    fn inputs(&self) -> (r: &[NoteInput<NoteRef>]) {
        let none: &[NoteInput<NoteRef>] = &[];
        assert(none@ =~= Seq::empty());
        none
    }

    fn outputs(&self) -> (r: &[Zatoshis]) {
        let none: &[Zatoshis] = &[];
        assert(none@ =~= Seq::empty());
        none
    }
}

} // verus!
