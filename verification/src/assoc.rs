//! Associations: the state of one connection between two endpoints.
use vstd::prelude::*;

use crate::addr::FakeAddr;

pub mod init;
pub mod rx;
pub mod srtt;
pub mod tx;

pub use rx::{
    AssociationRx, PollDataError, PollDataResult, RxNotification, StreamReceiveEvent,
};
pub use tx::timeouts::Timer;
pub use tx::{
    AssocTxSettings, AssociationTx, PollSendResult, SendError, SendErrorKind, TxNotification,
};

use crate::packet::Tsn;
use crate::AssocId;
use rx::initial_rx_view;
use tx::initial_tx_view;

verus! {

/// The value of an [`Association`]: its identifier and the values of its halves.
pub struct AssociationView<FakeContent: FakeAddr> {
    pub id: AssocId,
    pub rx: rx::AssocRxView<FakeContent>,
    pub tx: tx::AssocTxView<FakeContent>,
}

/// An association: its receiving and sending halves.
pub struct Association<FakeContent: FakeAddr> {
    id: AssocId,
    rx: AssociationRx<FakeContent>,
    tx: AssociationTx<FakeContent>,
}

impl<FakeContent: FakeAddr> Association<FakeContent> {
    pub closed spec fn spec_id(&self) -> AssocId {
        self.id
    }

    /// The receiving half.
    pub closed spec fn spec_rx(&self) -> AssociationRx<FakeContent> {
        self.rx
    }

    /// The sending half.
    pub closed spec fn spec_tx(&self) -> AssociationTx<FakeContent> {
        self.tx
    }

    /// The value of the association.
    pub open spec fn view(&self) -> AssociationView<FakeContent> {
        AssociationView { id: self.spec_id(), rx: self.spec_rx()@, tx: self.spec_tx()@ }
    }

    /// Both halves are consistent.
    pub open spec fn wf(&self) -> bool {
        self.spec_rx().wf() && self.spec_tx().wf()
    }

    /// A new association: a receiving half for a peer starting at `init_peer_tsn` with
    /// `num_in_streams` streams and room for `in_buffer_limit` bytes, and a sending half
    /// set up with `tx_settings`, both known by `id`.
    pub fn new(
        id: AssocId,
        init_peer_tsn: Tsn,
        num_in_streams: u16,
        in_buffer_limit: usize,
        tx_settings: AssocTxSettings<FakeContent>,
        now: u64,
    ) -> (r: Self)
        requires
            12 <= tx_settings.pmtu <= usize::MAX / 4,
            tx_settings.out_buffer_limit + 64 <= usize::MAX,
        ensures
            r.wf(),
            r.spec_id() == id,
            r.spec_rx()@ == initial_rx_view::<FakeContent>(
                id,
                init_peer_tsn,
                num_in_streams,
                in_buffer_limit,
            ),
            r.spec_tx()@ == initial_tx_view(id, tx_settings, now, true),
    {
        Self {
            id,
            rx: AssociationRx::new(id, init_peer_tsn, num_in_streams, in_buffer_limit),
            tx: AssociationTx::new(id, tx_settings, now),
        }
    }

    pub fn id(&self) -> (r: AssocId)
        ensures
            r == self.spec_id(),
    {
        self.id
    }

    /// The two halves, apart.
    pub fn split(self) -> (r: (AssociationRx<FakeContent>, AssociationTx<FakeContent>))
        ensures
            r == (self.spec_rx(), self.spec_tx()),
    {
        (self.rx, self.tx)
    }

    /// Both halves, to work on at once.
    pub fn split_mut(&mut self) -> (r: (&mut AssociationRx<FakeContent>, &mut AssociationTx<FakeContent>))
        ensures
            *r.0 == old(self).spec_rx(),
            *r.1 == old(self).spec_tx(),
            final(self).spec_rx() == *final(r.0),
            final(self).spec_tx() == *final(r.1),
            final(self).spec_id() == old(self).spec_id(),
    {
        (&mut self.rx, &mut self.tx)
    }

    pub fn tx(&self) -> (r: &AssociationTx<FakeContent>)
        ensures
            *r == self.spec_tx(),
    {
        &self.tx
    }

    pub fn tx_mut(&mut self) -> (r: &mut AssociationTx<FakeContent>)
        ensures
            *r == old(self).spec_tx(),
            final(self).spec_tx() == *final(r),
            final(self).spec_rx() == old(self).spec_rx(),
            final(self).spec_id() == old(self).spec_id(),
    {
        &mut self.tx
    }

    pub fn rx(&self) -> (r: &AssociationRx<FakeContent>)
        ensures
            *r == self.spec_rx(),
    {
        &self.rx
    }

    pub fn rx_mut(&mut self) -> (r: &mut AssociationRx<FakeContent>)
        ensures
            *r == old(self).spec_rx(),
            final(self).spec_rx() == *final(r),
            final(self).spec_tx() == old(self).spec_tx(),
            final(self).spec_id() == old(self).spec_id(),
    {
        &mut self.rx
    }
}

/// How far an association has got in shutting down.
#[derive(Clone, Copy, PartialEq, Eq, Structural, Debug)]
pub enum ShutdownState {
    TryingTo,
    ShutdownSent,
    ShutdownReceived,
    ShutdownAckSent,
    Complete,
    AbortReceived,
}

impl ShutdownState {
    /// Whether the association is gone: shut down completely or aborted.
    pub fn is_completely_shutdown(this: Option<&Self>) -> (r: bool)
        ensures
            r == (this == Some(&ShutdownState::Complete) || this == Some(
                &ShutdownState::AbortReceived,
            )),
    {
        match this {
            Some(ShutdownState::Complete) => true,
            Some(ShutdownState::AbortReceived) => true,
            _ => false,
        }
    }
}

} // verus!
