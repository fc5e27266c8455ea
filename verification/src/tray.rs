//! What the tray says, and the layer changes on their way to it.

use crate::strings;
use crate::text;
use vstd::prelude::*;

verus! {

/// The latest of the changes, if there are any.
pub open spec fn newest(pending: Seq<Seq<char>>) -> Option<Seq<char>> {
    if pending.len() == 0 {
        None
    } else {
        Some(pending.last())
    }
}

/// The description of a layer.
pub open spec fn described(layer: Seq<char>) -> Seq<char> {
    if layer.len() == 0 {
        "Base layer"@
    } else {
        "Layer: "@ + layer
    }
}

/// However many changes are pending, the tray shows the last that was pushed, by its name;
/// the base has a name of its own, which is no layer's.
pub proof fn the_tray_shows_the_last_layer(pending: Seq<Seq<char>>, layer: Seq<char>)
    ensures
        newest(pending.push(layer)) == Some(layer),
        newest(Seq::empty()) is None,
        layer.len() > 0 ==> described(layer) == "Layer: "@ + layer,
        layer.len() > 0 ==> described(layer) != described(Seq::empty()),
{
    reveal_strlit("Base layer");
    reveal_strlit("Layer: ");
    if layer.len() > 0 && described(layer) == described(Seq::empty()) {
        assert(described(layer)[0] == 'L');
    }
}

/// Layer changes that the tray has not shown yet, oldest first.
#[derive(Debug)]
pub struct TrayHandle {
    pub pending: Vec<String>,
}

impl TrayHandle {
    /// Nothing to show yet.
    pub fn new() -> (r: TrayHandle)
        ensures
            r.pending@.len() == 0,
    {
        TrayHandle { pending: Vec::new() }
    }

    /// Push the active layer towards the tray without waiting for it.
    pub fn set_layer(&mut self, layer: &str)
        ensures
            text::texts(final(self).pending@) == text::texts(old(self).pending@).push(layer@),
    {
        let ghost before = text::texts(self.pending@);
        self.pending.push(strings::copy(layer));
        assert(text::texts(self.pending@) =~= before.push(layer@));
    }

    /// Take everything that is pending and keep only the latest: bursts show as one
    /// change.
    pub fn latest(&mut self) -> (r: Option<String>)
        ensures
            final(self).pending@.len() == 0,
            text::opt(r) == newest(text::texts(old(self).pending@)),
    {
        let r = if self.pending.len() == 0 {
            None
        } else {
            Some(strings::copy(self.pending[self.pending.len() - 1].as_str()))
        };
        self.pending.clear();
        r
    }
}

/// The description in the tooltip: the active layer, none meaning base.
pub fn tooltip(layer: &str) -> (r: String)
    ensures
        r@ == described(layer@),
{
    if layer.is_empty() {
        strings::copy("Base layer")
    } else {
        strings::cat("Layer: ", layer)
    }
}

} // verus!
