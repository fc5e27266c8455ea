//! Live layer state, as it is shown.

use crate::text;
use vstd::prelude::*;

verus! {

/// The live state shown on each update.
#[derive(Debug, PartialEq, Eq)]
pub struct LiveState {
    /// The stream is connected.
    pub connected: bool,
    /// Active layers in activation order (most recent last); none means base.
    pub active: Vec<String>,
}

pub struct LiveStateView {
    pub connected: bool,
    pub active: Seq<Seq<char>>,
}

impl View for LiveState {
    type V = LiveStateView;

    open spec fn view(&self) -> LiveStateView {
        LiveStateView { connected: self.connected, active: text::texts(self.active@) }
    }
}

/// What comes of the layer stream.
#[derive(Debug)]
pub enum ListenEvent {
    /// The stream opened; a fresh snapshot follows.
    Opened,
    /// A transition left these layers active.
    Layers(Vec<String>),
    /// The stream ended, or could not be opened.
    Ended,
}

/// The state to show after an event of the layer stream.
pub open spec fn shown_for(ev: ListenEvent) -> LiveStateView {
    match ev {
        ListenEvent::Opened => LiveStateView { connected: true, active: Seq::empty() },
        ListenEvent::Layers(v) => LiveStateView { connected: true, active: text::texts(v@) },
        ListenEvent::Ended => LiveStateView { connected: false, active: Seq::empty() },
    }
}

/// The state to show after an event of the layer stream. Opening and ending both forget
/// the layers: a fresh snapshot is replayed on every connect.
pub fn listen_state(ev: ListenEvent) -> (r: LiveState)
    ensures
        r@ == shown_for(ev),
{
    match ev {
        ListenEvent::Opened => {
            let r = LiveState { connected: true, active: Vec::new() };
            assert(r@.active =~= Seq::<Seq<char>>::empty());
            r
        },
        ListenEvent::Layers(v) => LiveState { connected: true, active: v },
        ListenEvent::Ended => {
            let r = LiveState { connected: false, active: Vec::new() };
            assert(r@.active =~= Seq::<Seq<char>>::empty());
            r
        },
    }
}

/// The layers shown are those of the last transition while the stream is there, in their
/// order; a stream that opens or ends shows the base, and only an end disconnects.
pub proof fn the_shown_layers_are_keyds(ev: ListenEvent)
    ensures
        shown_for(ev).connected <==> !(ev is Ended),
        ev matches ListenEvent::Layers(v) ==> shown_for(ev).active.len() == v@.len() && forall|
            i: int,
        |
            0 <= i < v@.len() ==> #[trigger] shown_for(ev).active[i] == v@[i]@,
        !(ev is Layers) ==> shown_for(ev).active.len() == 0,
{
}

} // verus!
