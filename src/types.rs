use std::collections::HashMap;
use vstd::prelude::*;

verus! {

/// One key position on one layer.
#[derive(Debug, Clone, PartialEq, Eq)]
pub enum Key {
    /// A reference to entry `n` of the action table, written `FN<n>`.
    Fx(u64),
    /// Any other identifier, kept verbatim.
    Key(String),
}

/// What a functional key does.
#[derive(Debug, Clone, PartialEq, Eq)]
pub enum Action {
    /// Run a specific function.
    Function(Key),
    /// Tappable function.
    FunctionTap(Key),
    /// Sets a layer that is always valid.
    DefaultLayerSet(u64),
    /// Turn a layer on or off, at the given event.
    LayerSet(u64, String),
    /// Turn a layer on and clear all layers on release.
    LayerSetClear(u64),
    /// Momentary layer switch.
    LayerMomentary(u64),
    /// Momentary layer while held, the key when tapped.
    LayerTapKey(u64, Key),
    /// Momentary layer that toggles on taps.
    LayerTapToggle(u64),
    /// Toggle a layer.
    LayerToggle(u64),
    /// Press two keys together, usually a modifier and a key.
    ModsKey(Key, Key),
    /// The modifier while held, the key when tapped.
    ModsTapKey(Key, Key),
}

/// The keys of one layer, in source order.
pub type KeyMap = Vec<Key>;

/// All layers, layer 0 first.
pub type KeyMapVec = Vec<KeyMap>;

/// Action index to action; a later definition of an index replaces an earlier one.
pub type ActionMap = HashMap<u64, Action>;

/// Why a parse failed. A failure is total: no partial result is returned.
#[derive(Debug, Clone, Copy, PartialEq, Eq, Structural)]
pub enum ParseError {
    /// None of the expected alternatives matches.
    Syntax,
    /// An integer with a leading zero, or one too large for 64 bits.
    InvalidInteger,
    /// `ACTION_<suffix>` with a suffix that names no action.
    UnknownAction,
    /// A `/*` without a matching `*/`.
    UnterminatedComment,
    /// The input ends before one of the two section headers was found.
    SectionNotFound,
}

/// The mathematical value of a [`Key`].
pub ghost enum KeyV {
    Fx(u64),
    Named(Seq<char>),
}

/// The mathematical value of an [`Action`].
pub ghost enum ActionV {
    Function(KeyV),
    FunctionTap(KeyV),
    DefaultLayerSet(u64),
    LayerSet(u64, Seq<char>),
    LayerSetClear(u64),
    LayerMomentary(u64),
    LayerTapKey(u64, KeyV),
    LayerTapToggle(u64),
    LayerToggle(u64),
    ModsKey(KeyV, KeyV),
    ModsTapKey(KeyV, KeyV),
}

impl View for Key {
    type V = KeyV;

    open spec fn view(&self) -> KeyV {
        match self {
            Key::Fx(n) => KeyV::Fx(*n),
            Key::Key(s) => KeyV::Named(s@),
        }
    }
}

impl View for Action {
    type V = ActionV;

    open spec fn view(&self) -> ActionV {
        match self {
            Action::Function(k) => ActionV::Function(k@),
            Action::FunctionTap(k) => ActionV::FunctionTap(k@),
            Action::DefaultLayerSet(l) => ActionV::DefaultLayerSet(*l),
            Action::LayerSet(l, s) => ActionV::LayerSet(*l, s@),
            Action::LayerSetClear(l) => ActionV::LayerSetClear(*l),
            Action::LayerMomentary(l) => ActionV::LayerMomentary(*l),
            Action::LayerTapKey(l, k) => ActionV::LayerTapKey(*l, k@),
            Action::LayerTapToggle(l) => ActionV::LayerTapToggle(*l),
            Action::LayerToggle(l) => ActionV::LayerToggle(*l),
            Action::ModsKey(m, k) => ActionV::ModsKey(m@, k@),
            Action::ModsTapKey(m, k) => ActionV::ModsTapKey(m@, k@),
        }
    }
}

/// The value of a layer.
pub open spec fn keymap_view(km: KeyMap) -> Seq<KeyV> {
    km@.map_values(|k: Key| k@)
}

/// The value of a list of layers.
pub open spec fn keymaps_view(kmv: KeyMapVec) -> Seq<Seq<KeyV>> {
    kmv@.map_values(|km: KeyMap| keymap_view(km))
}

/// The value of an action table.
pub open spec fn actions_view(am: ActionMap) -> Map<u64, ActionV> {
    am@.map_values(|a: Action| a@)
}

} // verus!
