//! What the picture shows on one key: its captions and how pressing it
//! switches layers. A functional key is resolved through the action table; one
//! whose action is missing is marked as broken rather than failing.

use crate::lexer::chars_of;
use crate::text::{decimal_digits, push_decimal};
use crate::types::{actions_view, ActionMap, Action, ActionV, Key, KeyV};
use vstd::prelude::*;

verus! {

broadcast use vstd::std_specs::hash::group_hash_axioms;

/// How pressing a key on the picture switches layers.
#[derive(Debug, Clone, Copy, PartialEq, Eq, Structural)]
pub enum Press {
    /// Nothing happens.
    Plain,
    /// A click shows only the given layer.
    OnlyLayer(u64),
    /// The given layer shows while the key is held.
    Momentary(u64),
}

/// One caption of a key: a key name and the height at which it stands.
#[derive(Debug)]
pub struct Caption {
    pub text: String,
    pub y: u64,
}

/// Everything drawn on a key besides its outline.
#[derive(Debug)]
pub struct KeyFace {
    pub press: Press,
    pub captions: Vec<Caption>,
}

impl View for Caption {
    type V = (Seq<char>, u64);

    open spec fn view(&self) -> (Seq<char>, u64) {
        (self.text@, self.y)
    }
}

impl View for KeyFace {
    type V = (Press, Seq<(Seq<char>, u64)>);

    open spec fn view(&self) -> (Press, Seq<(Seq<char>, u64)>) {
        (self.press, self.captions@.map_values(|c: Caption| c@))
    }
}

/// The name of a named key, or `fallback` for a functional one.
pub open spec fn name_or(k: KeyV, fallback: Seq<char>) -> Seq<char> {
    match k {
        KeyV::Named(s) => s,
        KeyV::Fx(_) => fallback,
    }
}

/// The face of the key at a position (`None` where the layer has no key there),
/// given the action table.
pub open spec fn face_of(k: Option<KeyV>, table: Map<u64, ActionV>) -> (Press, Seq<(Seq<char>, u64)>) {
    match k {
        None => (Press::Plain, seq![]),
        Some(KeyV::Named(s)) => (Press::Plain, seq![(s, 25u64)]),
        Some(KeyV::Fx(i)) => if !table.contains_key(i) {
            (Press::Plain, seq![("BROKEN"@, 0u64)])
        } else {
            match table[i] {
                ActionV::LayerSet(l, _) => (
                    Press::OnlyLayer(l),
                    seq![("#"@ + chars_of(decimal_digits(l as nat)), 25u64)],
                ),
                ActionV::LayerMomentary(l) => (
                    Press::Momentary(l),
                    seq![("~"@ + chars_of(decimal_digits(l as nat)), 25u64)],
                ),
                ActionV::LayerTapKey(l, k) => (
                    Press::Momentary(l),
                    seq![
                        (name_or(k, "WHAT?"@), 25u64),
                        ("~L"@ + chars_of(decimal_digits(l as nat)), 50u64),
                    ],
                ),
                ActionV::ModsTapKey(m, k) => (
                    Press::Plain,
                    seq![(name_or(m, "HUH?"@), 0u64), (name_or(k, "HRM.."@), 50u64)],
                ),
                _ => (Press::Plain, seq![]),
            }
        },
    }
}

fn caption(text: String, y: u64) -> (r: Caption)
    ensures
        r@ == (text@, y),
{
    Caption { text, y }
}

fn name_or_exec(k: &Key, fallback: &str) -> (r: String)
    ensures
        r@ == name_or(k@, fallback@),
{
    match k {
        Key::Key(s) => s.clone(),
        Key::Fx(_) => String::from_str(fallback),
    }
}

/// `prefix` followed by the decimal numeral of `n`.
fn numbered(prefix: &str, n: u64) -> (r: String)
    ensures
        r@ == prefix@ + chars_of(decimal_digits(n as nat)),
{
    let mut out = String::from_str(prefix);
    push_decimal(&mut out, n);
    out
}

/// The face of `key` (`None` where the layer has no key at a position).
pub fn key_face(key: Option<&Key>, actions: &ActionMap) -> (r: KeyFace)
    ensures
        r@ == face_of(
            match key {
                Some(k) => Some(k@),
                None => None,
            },
            actions_view(*actions),
        ),
{
    let mut captions: Vec<Caption> = Vec::new();
    let mut press = Press::Plain;
    match key {
        None => {},
        Some(Key::Key(name)) => {
            captions.push(caption(name.clone(), 25));
        },
        Some(Key::Fx(i)) => {
            match actions.get(i) {
                None => {
                    captions.push(caption(String::from_str("BROKEN"), 0));
                },
                Some(a) => {
                    proof {
                        assert(actions_view(*actions).contains_key(*i));
                        assert(actions_view(*actions)[*i] == a@);
                    }
                    match a {
                        Action::LayerSet(l, _) => {
                            press = Press::OnlyLayer(*l);
                            captions.push(caption(numbered("#", *l), 25));
                        },
                        Action::LayerMomentary(l) => {
                            press = Press::Momentary(*l);
                            captions.push(caption(numbered("~", *l), 25));
                        },
                        Action::LayerTapKey(l, k) => {
                            press = Press::Momentary(*l);
                            captions.push(caption(name_or_exec(k, "WHAT?"), 25));
                            captions.push(caption(numbered("~L", *l), 50));
                        },
                        Action::ModsTapKey(m, k) => {
                            captions.push(caption(name_or_exec(m, "HUH?"), 0));
                            captions.push(caption(name_or_exec(k, "HRM.."), 50));
                        },
                        _ => {},
                    }
                },
            }
        },
    }
    let r = KeyFace { press, captions };
    proof {
        let spec_face = face_of(
            match key {
                Some(k) => Some(k@),
                None => None,
            },
            actions_view(*actions),
        );
        assert(r@.1 =~= spec_face.1);
    }
    r
}

} // verus!
