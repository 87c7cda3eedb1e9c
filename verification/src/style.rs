use vstd::prelude::*;

verus! {

/// The two visual emphases available to the display for the controls it
/// renders around the relay: its primary action and everything secondary.
/// The display maps each to its own colours; the relay core only names the
/// choice.
#[derive(Clone, Copy, PartialEq, Eq, Structural, Debug)]
pub enum Button {
    Primary,
    Secondary,
}

} // verus!
