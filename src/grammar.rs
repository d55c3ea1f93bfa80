//! The grammar of the two sections, as spec functions from the remaining input
//! to a value and the input left after it.
//!
//! Insignificant text may stand before every token. Lists are separated by
//! commas and may end with one. Each section is found by scanning the whole
//! input for its header, one byte at a time, while comments are passed over
//! whole.

use crate::lexer::{at, integer, is_ws, key, key_raw, lemma_skip_shorter, lemma_tokens_shorter, skip, word, Mode};
use crate::types::{ActionV, KeyV, ParseError};
use vstd::prelude::*;
use vstd::string::StringSliceAdditionalSpecFns;

verus! {

/// `t` begins with `p`.
pub open spec fn starts_with(t: Seq<u8>, p: Seq<u8>) -> bool {
    p.len() <= t.len() && t.subrange(0, p.len() as int) == p
}

/// The byte `c` after insignificant text.
pub open spec fn punct(t: Seq<u8>, c: u8) -> Result<Seq<u8>, ParseError> {
    match skip(t) {
        Ok(r) => if r.len() > 0 && r[0] == c {
            Ok(at(r, 1))
        } else {
            Err(ParseError::Syntax)
        },
        Err(e) => Err(e),
    }
}

/// The keys of a `KEYMAP(...)` call after its `(`, up to and including `)`.
pub open spec fn key_list(t: Seq<u8>) -> Result<(Seq<KeyV>, Seq<u8>), ParseError>
    decreases t.len(),
{
    match skip(t) {
        Err(e) => Err(e),
        Ok(r) => if r.len() > 0 && r[0] == 41 {
            Ok((seq![], at(r, 1)))
        } else {
            match key_raw(r) {
                Err(e) => Err(e),
                Ok((k, r2)) => match skip(r2) {
                    Err(e) => Err(e),
                    Ok(r3) => if r3.len() > 0 && r3[0] == 44 {
                        proof {
                            lemma_skip_shorter(t, Mode::Code);
                            lemma_tokens_shorter(r);
                            lemma_skip_shorter(r2, Mode::Code);
                        }
                        match key_list(at(r3, 1)) {
                            Ok((ks, r4)) => Ok((seq![k] + ks, r4)),
                            Err(e) => Err(e),
                        }
                    } else if r3.len() > 0 && r3[0] == 41 {
                        Ok((seq![k], at(r3, 1)))
                    } else {
                        Err(ParseError::Syntax)
                    },
                },
            }
        },
    }
}

/// One layer: `KEYMAP ( key, key, ... )`.
pub open spec fn keymap(t: Seq<u8>) -> Result<(Seq<KeyV>, Seq<u8>), ParseError> {
    match word(t) {
        Err(e) => Err(e),
        Ok((w, r)) => if w == "KEYMAP".spec_bytes() {
            match punct(r, 40) {
                Ok(r2) => key_list(r2),
                Err(e) => Err(e),
            }
        } else {
            Err(ParseError::Syntax)
        },
    }
}

/// The layers of the keymap section after its `{`, up to and including `}`.
pub open spec fn keymap_list(t: Seq<u8>) -> Result<(Seq<Seq<KeyV>>, Seq<u8>), ParseError>
    decreases t.len(),
{
    match skip(t) {
        Err(e) => Err(e),
        Ok(r) => if r.len() > 0 && r[0] == 125 {
            Ok((seq![], at(r, 1)))
        } else {
            match keymap(r) {
                Err(e) => Err(e),
                Ok((km, r2)) => match skip(r2) {
                    Err(e) => Err(e),
                    Ok(r3) => if r3.len() > 0 && r3[0] == 44 {
                        proof {
                            lemma_skip_shorter(t, Mode::Code);
                            lemma_keymap_shorter(r);
                            lemma_skip_shorter(r2, Mode::Code);
                        }
                        match keymap_list(at(r3, 1)) {
                            Ok((kms, r4)) => Ok((seq![km] + kms, r4)),
                            Err(e) => Err(e),
                        }
                    } else if r3.len() > 0 && r3[0] == 125 {
                        Ok((seq![km], at(r3, 1)))
                    } else {
                        Err(ParseError::Syntax)
                    },
                },
            }
        },
    }
}

/// `( key )`
pub open spec fn args_key(t: Seq<u8>) -> Result<(KeyV, Seq<u8>), ParseError> {
    match punct(t, 40) {
        Err(e) => Err(e),
        Ok(r) => match key(r) {
            Err(e) => Err(e),
            Ok((k, r2)) => match punct(r2, 41) {
                Err(e) => Err(e),
                Ok(r3) => Ok((k, r3)),
            },
        },
    }
}

/// `( layer )`
pub open spec fn args_layer(t: Seq<u8>) -> Result<(u64, Seq<u8>), ParseError> {
    match punct(t, 40) {
        Err(e) => Err(e),
        Ok(r) => match integer(r) {
            Err(e) => Err(e),
            Ok((l, r2)) => match punct(r2, 41) {
                Err(e) => Err(e),
                Ok(r3) => Ok((l, r3)),
            },
        },
    }
}

/// `( layer , identifier )`
pub open spec fn args_layer_name(t: Seq<u8>) -> Result<((u64, Seq<u8>), Seq<u8>), ParseError> {
    match punct(t, 40) {
        Err(e) => Err(e),
        Ok(r) => match integer(r) {
            Err(e) => Err(e),
            Ok((l, r2)) => match punct(r2, 44) {
                Err(e) => Err(e),
                Ok(r3) => match word(r3) {
                    Err(e) => Err(e),
                    Ok((w, r4)) => match punct(r4, 41) {
                        Err(e) => Err(e),
                        Ok(r5) => Ok(((l, w), r5)),
                    },
                },
            },
        },
    }
}

/// `( layer , key )`
pub open spec fn args_layer_key(t: Seq<u8>) -> Result<((u64, KeyV), Seq<u8>), ParseError> {
    match punct(t, 40) {
        Err(e) => Err(e),
        Ok(r) => match integer(r) {
            Err(e) => Err(e),
            Ok((l, r2)) => match punct(r2, 44) {
                Err(e) => Err(e),
                Ok(r3) => match key(r3) {
                    Err(e) => Err(e),
                    Ok((k, r4)) => match punct(r4, 41) {
                        Err(e) => Err(e),
                        Ok(r5) => Ok(((l, k), r5)),
                    },
                },
            },
        },
    }
}

/// `( key , key )`
pub open spec fn args_keys(t: Seq<u8>) -> Result<((KeyV, KeyV), Seq<u8>), ParseError> {
    match punct(t, 40) {
        Err(e) => Err(e),
        Ok(r) => match key(r) {
            Err(e) => Err(e),
            Ok((m, r2)) => match punct(r2, 44) {
                Err(e) => Err(e),
                Ok(r3) => match key(r3) {
                    Err(e) => Err(e),
                    Ok((k, r4)) => match punct(r4, 41) {
                        Err(e) => Err(e),
                        Ok(r5) => Ok(((m, k), r5)),
                    },
                },
            },
        },
    }
}

/// The arguments of `ACTION_<suffix>`, whose shape the whole suffix selects.
pub open spec fn action_args(suffix: Seq<u8>, t: Seq<u8>) -> Result<(ActionV, Seq<u8>), ParseError> {
    if suffix == "FUNCTION".spec_bytes() {
        match args_key(t) {
            Ok((k, r)) => Ok((ActionV::Function(k), r)),
            Err(e) => Err(e),
        }
    } else if suffix == "FUNCTION_TAP".spec_bytes() {
        match args_key(t) {
            Ok((k, r)) => Ok((ActionV::FunctionTap(k), r)),
            Err(e) => Err(e),
        }
    } else if suffix == "LAYER_MOMENTARY".spec_bytes() {
        match args_layer(t) {
            Ok((l, r)) => Ok((ActionV::LayerMomentary(l), r)),
            Err(e) => Err(e),
        }
    } else if suffix == "LAYER_SET".spec_bytes() {
        match args_layer_name(t) {
            Ok(((l, w), r)) => Ok((ActionV::LayerSet(l, crate::lexer::chars_of(w)), r)),
            Err(e) => Err(e),
        }
    } else if suffix == "LAYER_SET_CLEAR".spec_bytes() {
        match args_layer(t) {
            Ok((l, r)) => Ok((ActionV::LayerSetClear(l), r)),
            Err(e) => Err(e),
        }
    } else if suffix == "LAYER_TOGGLE".spec_bytes() {
        match args_layer(t) {
            Ok((l, r)) => Ok((ActionV::LayerToggle(l), r)),
            Err(e) => Err(e),
        }
    } else if suffix == "LAYER_TAP_TOGGLE".spec_bytes() {
        match args_layer(t) {
            Ok((l, r)) => Ok((ActionV::LayerTapToggle(l), r)),
            Err(e) => Err(e),
        }
    } else if suffix == "DEFAULT_LAYER_SET".spec_bytes() {
        match args_layer(t) {
            Ok((l, r)) => Ok((ActionV::DefaultLayerSet(l), r)),
            Err(e) => Err(e),
        }
    } else if suffix == "LAYER_TAP_KEY".spec_bytes() {
        match args_layer_key(t) {
            Ok(((l, k), r)) => Ok((ActionV::LayerTapKey(l, k), r)),
            Err(e) => Err(e),
        }
    } else if suffix == "MODS_KEY".spec_bytes() {
        match args_keys(t) {
            Ok(((m, k), r)) => Ok((ActionV::ModsKey(m, k), r)),
            Err(e) => Err(e),
        }
    } else if suffix == "MODS_TAP_KEY".spec_bytes() {
        match args_keys(t) {
            Ok(((m, k), r)) => Ok((ActionV::ModsTapKey(m, k), r)),
            Err(e) => Err(e),
        }
    } else {
        Err(ParseError::UnknownAction)
    }
}

/// One action call: the identifier `ACTION_<suffix>` and its arguments.
pub open spec fn action(t: Seq<u8>) -> Result<(ActionV, Seq<u8>), ParseError> {
    match word(t) {
        Err(e) => Err(e),
        Ok((w, r)) => if starts_with(w, "ACTION_".spec_bytes()) {
            action_args(at(w, 7), r)
        } else {
            Err(ParseError::Syntax)
        },
    }
}

/// One entry of the action table: `[ index ] = action`.
pub open spec fn entry(t: Seq<u8>) -> Result<((u64, ActionV), Seq<u8>), ParseError> {
    match punct(t, 91) {
        Err(e) => Err(e),
        Ok(r) => match integer(r) {
            Err(e) => Err(e),
            Ok((n, r2)) => match punct(r2, 93) {
                Err(e) => Err(e),
                Ok(r3) => match punct(r3, 61) {
                    Err(e) => Err(e),
                    Ok(r4) => match action(r4) {
                        Err(e) => Err(e),
                        Ok((a, r5)) => Ok(((n, a), r5)),
                    },
                },
            },
        },
    }
}

/// The entries of the action section after its `{`, in source order, up to and including `}`.
pub open spec fn entry_list(t: Seq<u8>) -> Result<(Seq<(u64, ActionV)>, Seq<u8>), ParseError>
    decreases t.len(),
{
    match skip(t) {
        Err(e) => Err(e),
        Ok(r) => if r.len() > 0 && r[0] == 125 {
            Ok((seq![], at(r, 1)))
        } else {
            match entry(r) {
                Err(e) => Err(e),
                Ok((en, r2)) => match skip(r2) {
                    Err(e) => Err(e),
                    Ok(r3) => if r3.len() > 0 && r3[0] == 44 {
                        proof {
                            lemma_skip_shorter(t, Mode::Code);
                            lemma_entry_shorter(r);
                            lemma_skip_shorter(r2, Mode::Code);
                        }
                        match entry_list(at(r3, 1)) {
                            Ok((es, r4)) => Ok((seq![en] + es, r4)),
                            Err(e) => Err(e),
                        }
                    } else if r3.len() > 0 && r3[0] == 125 {
                        Ok((seq![en], at(r3, 1)))
                    } else {
                        Err(ParseError::Syntax)
                    },
                },
            }
        },
    }
}

/// Scanning for the header `h` in mode `m`: the input left after the first
/// occurrence of `h` that does not stand inside a comment.
pub open spec fn find_in(t: Seq<u8>, h: Seq<u8>, m: Mode) -> Result<Seq<u8>, ParseError>
    decreases t.len(),
{
    match m {
        Mode::Code => {
            if h.len() > 0 && starts_with(t, h) {
                Ok(at(t, h.len() as int))
            } else if t.len() >= 2 && t[0] == 47 && t[1] == 47 {
                find_in(at(t, 2), h, Mode::Line)
            } else if t.len() >= 2 && t[0] == 47 && t[1] == 42 {
                find_in(at(t, 2), h, Mode::Block)
            } else if t.len() == 0 {
                Err(ParseError::SectionNotFound)
            } else {
                find_in(at(t, 1), h, Mode::Code)
            }
        },
        Mode::Line => {
            if t.len() == 0 {
                Err(ParseError::SectionNotFound)
            } else if t[0] == 10 {
                find_in(at(t, 1), h, Mode::Code)
            } else {
                find_in(at(t, 1), h, Mode::Line)
            }
        },
        Mode::Block => {
            if t.len() < 2 {
                Err(ParseError::UnterminatedComment)
            } else if t[0] == 42 && t[1] == 47 {
                find_in(at(t, 2), h, Mode::Code)
            } else {
                find_in(at(t, 1), h, Mode::Block)
            }
        },
    }
}

pub open spec fn keymaps_header() -> Seq<u8> {
    "keymaps[][MATRIX_ROWS][MATRIX_COLS]".spec_bytes()
}

pub open spec fn actions_header() -> Seq<u8> {
    "fn_actions[]".spec_bytes()
}

/// The keymap section: its header, `=`, `{`, the layers, `}`.
pub open spec fn keymaps_section(t: Seq<u8>) -> Result<Seq<Seq<KeyV>>, ParseError> {
    match find_in(t, keymaps_header(), Mode::Code) {
        Err(e) => Err(e),
        Ok(r) => match punct(r, 61) {
            Err(e) => Err(e),
            Ok(r2) => match punct(r2, 123) {
                Err(e) => Err(e),
                Ok(r3) => match keymap_list(r3) {
                    Err(e) => Err(e),
                    Ok((kms, _)) => Ok(kms),
                },
            },
        },
    }
}

/// The action section: its header, `=`, `{`, the entries, `}`.
pub open spec fn actions_section(t: Seq<u8>) -> Result<Seq<(u64, ActionV)>, ParseError> {
    match find_in(t, actions_header(), Mode::Code) {
        Err(e) => Err(e),
        Ok(r) => match punct(r, 61) {
            Err(e) => Err(e),
            Ok(r2) => match punct(r2, 123) {
                Err(e) => Err(e),
                Ok(r3) => match entry_list(r3) {
                    Err(e) => Err(e),
                    Ok((es, _)) => Ok(es),
                },
            },
        },
    }
}

/// The action table that a list of entries defines: a later entry for an
/// index replaces an earlier one.
pub open spec fn action_table(es: Seq<(u64, ActionV)>) -> Map<u64, ActionV>
    decreases es.len(),
{
    if es.len() == 0 {
        Map::empty()
    } else {
        action_table(es.drop_last()).insert(es.last().0, es.last().1)
    }
}

/// The whole document: the layers of the keymap section and the table of the
/// action section. The keymap section's failure is reported first.
pub open spec fn document(s: Seq<u8>) -> Result<(Seq<Seq<KeyV>>, Map<u64, ActionV>), ParseError> {
    match keymaps_section(s) {
        Err(e) => Err(e),
        Ok(kms) => match actions_section(s) {
            Err(e) => Err(e),
            Ok(es) => Ok((kms, action_table(es))),
        },
    }
}

pub proof fn lemma_punct_shorter(t: Seq<u8>, c: u8)
    ensures
        punct(t, c) matches Ok(r) ==> r.len() < t.len(),
{
    lemma_skip_shorter(t, Mode::Code);
}

pub proof fn lemma_key_list_shorter(t: Seq<u8>)
    ensures
        key_list(t) matches Ok((_, r)) ==> r.len() < t.len(),
    decreases t.len(),
{
    lemma_skip_shorter(t, Mode::Code);
    if let Ok(r) = skip(t) {
        lemma_tokens_shorter(r);
        if let Ok((_, r2)) = key_raw(r) {
            lemma_skip_shorter(r2, Mode::Code);
            if let Ok(r3) = skip(r2) {
                if r3.len() > 0 && r3[0] == 44 {
                    lemma_key_list_shorter(at(r3, 1));
                }
            }
        }
    }
}

pub proof fn lemma_keymap_shorter(t: Seq<u8>)
    ensures
        keymap(t) matches Ok((_, r)) ==> r.len() < t.len(),
{
    lemma_tokens_shorter(t);
    if let Ok((_, r)) = word(t) {
        lemma_punct_shorter(r, 40);
        if let Ok(r2) = punct(r, 40) {
            lemma_key_list_shorter(r2);
        }
    }
}

pub proof fn lemma_args_shorter(t: Seq<u8>)
    ensures
        args_key(t) matches Ok((_, r)) ==> r.len() < t.len(),
        args_layer(t) matches Ok((_, r)) ==> r.len() < t.len(),
        args_layer_name(t) matches Ok((_, r)) ==> r.len() < t.len(),
        args_layer_key(t) matches Ok((_, r)) ==> r.len() < t.len(),
        args_keys(t) matches Ok((_, r)) ==> r.len() < t.len(),
{
    lemma_punct_shorter(t, 40);
    if let Ok(r) = punct(t, 40) {
        lemma_tokens_shorter(r);
        lemma_after_token(r);
    }
}

/// What follows a key or an integer within argument lists only shortens the input.
proof fn lemma_after_token(r: Seq<u8>)
    ensures
        key(r) matches Ok((_, r2)) ==> punct(r2, 41) matches Ok(r3) ==> r3.len() < r2.len(),
        key(r) matches Ok((_, r2)) ==> punct(r2, 44) matches Ok(r3) ==> r3.len() < r2.len(),
        integer(r) matches Ok((_, r2)) ==> punct(r2, 41) matches Ok(r3) ==> r3.len() < r2.len(),
        integer(r) matches Ok((_, r2)) ==> punct(r2, 44) matches Ok(r3) ==> (r3.len() < r2.len()
            && (key(r3) matches Ok((_, r4)) ==> r4.len() < r3.len() && (punct(r4, 41) matches Ok(
            r5) ==> r5.len() < r4.len())) && (word(r3) matches Ok((_, r4)) ==> r4.len() < r3.len()
            && (punct(r4, 41) matches Ok(r5) ==> r5.len() < r4.len()))),
        key(r) matches Ok((_, r2)) ==> punct(r2, 44) matches Ok(r3) ==> (key(r3) matches Ok(
            (_, r4)) ==> r4.len() < r3.len() && (punct(r4, 41) matches Ok(r5) ==> r5.len()
            < r4.len())),
{
    if let Ok((_, r2)) = key(r) {
        lemma_punct_shorter(r2, 41);
        lemma_punct_shorter(r2, 44);
        if let Ok(r3) = punct(r2, 44) {
            lemma_tokens_shorter(r3);
            if let Ok((_, r4)) = key(r3) {
                lemma_punct_shorter(r4, 41);
            }
        }
    }
    if let Ok((_, r2)) = integer(r) {
        lemma_punct_shorter(r2, 41);
        lemma_punct_shorter(r2, 44);
        if let Ok(r3) = punct(r2, 44) {
            lemma_tokens_shorter(r3);
            if let Ok((_, r4)) = key(r3) {
                lemma_punct_shorter(r4, 41);
            }
            if let Ok((_, r4)) = word(r3) {
                lemma_punct_shorter(r4, 41);
            }
        }
    }
}

pub proof fn lemma_action_args_shorter(suffix: Seq<u8>, t: Seq<u8>)
    ensures
        action_args(suffix, t) matches Ok((_, r)) ==> r.len() < t.len(),
{
    lemma_args_shorter(t);
}

pub proof fn lemma_action_shorter(t: Seq<u8>)
    ensures
        action(t) matches Ok((_, r)) ==> r.len() < t.len(),
{
    lemma_tokens_shorter(t);
    if let Ok((w, r)) = word(t) {
        lemma_action_args_shorter(at(w, 7), r);
    }
}

pub proof fn lemma_entry_shorter(t: Seq<u8>)
    ensures
        entry(t) matches Ok((_, r)) ==> r.len() < t.len(),
{
    lemma_punct_shorter(t, 91);
    if let Ok(r) = punct(t, 91) {
        lemma_tokens_shorter(r);
        if let Ok((_, r2)) = integer(r) {
            lemma_punct_shorter(r2, 93);
            if let Ok(r3) = punct(r2, 93) {
                lemma_punct_shorter(r3, 61);
                if let Ok(r4) = punct(r3, 61) {
                    lemma_action_shorter(r4);
                }
            }
        }
    }
}

} // verus!
