//! Sections written with arbitrary whitespace and comments between their
//! tokens, and the proof that such text parses to the layers or entries it
//! was written from, whatever those gaps hold.

use crate::grammar::{
    action, action_args, actions_header, actions_section, args_key, args_keys, args_layer,
    args_layer_key, args_layer_name, entry, entry_list, find_in, key_list, keymap, keymap_list,
    keymaps_header, keymaps_section, punct, starts_with,
};
use crate::laws::{is_insignificant, joined, lemma_comments_between_tokens, lemma_fn_key_round_trip};
use crate::lexer::{
    at, chars_of, integer, integer_raw, is_digit, is_ident_byte, is_ws, key, key_raw, lemma_digit_run,
    lemma_ident_run, skip, word, Mode,
};
use crate::text::decimal_digits;
use crate::types::{ActionV, KeyV, ParseError};
use vstd::prelude::*;
use vstd::string::StringSliceAdditionalSpecFns;

verus! {

/// Insignificant text between two tokens, as the pieces it is made of.
pub type Gap = Seq<Seq<u8>>;

/// A key with the gaps before it and after it.
pub ghost struct KeySlot {
    pub before: Gap,
    pub key: KeyV,
    pub after: Gap,
}

/// A `KEYMAP(...)` call with the gaps before it, between `KEYMAP` and `(`,
/// before `)` when it has no keys, and after it.
pub ghost struct LayerSlot {
    pub before: Gap,
    pub open: Gap,
    pub keys: Seq<KeySlot>,
    pub close: Gap,
    pub after: Gap,
}

pub open spec fn is_gap(g: Gap) -> bool {
    forall|i: int| 0 <= i < g.len() ==> is_insignificant(#[trigger] g[i])
}

/// A key that can be written so that it reads back: a name of identifier
/// characters that does not start like a functional key.
pub open spec fn writable(k: KeyV) -> bool {
    match k {
        KeyV::Fx(_) => true,
        KeyV::Named(s) => s.len() > 0 && (forall|i: int| 0 <= i < s.len() ==> is_ident_byte(#[trigger] s[i] as u8) && s[i] as u8 as char == s[i])
            && !(s.len() >= 3 && s[0] == 'F' && s[1] == 'N' && is_digit(s[2] as u8)),
    }
}

/// The bytes of a key as it is written.
pub open spec fn key_bytes(k: KeyV) -> Seq<u8> {
    match k {
        KeyV::Fx(n) => seq![70u8, 78u8] + decimal_digits(n as nat),
        KeyV::Named(s) => s.map_values(|c: char| c as u8),
    }
}

/// The keys of a call after its `(`: each key with its gaps, separated by
/// commas, then `)`.
pub open spec fn keys_text(ks: Seq<KeySlot>, close: Gap) -> Seq<u8>
    decreases ks.len(),
{
    if ks.len() == 0 {
        joined(close) + seq![41u8]
    } else {
        joined(ks[0].before) + key_bytes(ks[0].key) + joined(ks[0].after) + if ks.len() == 1 {
            seq![41u8]
        } else {
            seq![44u8] + keys_text(ks.subrange(1, ks.len() as int), close)
        }
    }
}

/// A `KEYMAP(...)` call without the gaps around it.
pub open spec fn call_text(l: LayerSlot) -> Seq<u8> {
    "KEYMAP".spec_bytes() + joined(l.open) + seq![40u8] + keys_text(l.keys, l.close)
}

/// The layers of the section after its `{`, separated by commas, then `}`.
pub open spec fn layers_text(ls: Seq<LayerSlot>, close: Gap) -> Seq<u8>
    decreases ls.len(),
{
    if ls.len() == 0 {
        joined(close) + seq![125u8]
    } else {
        joined(ls[0].before) + call_text(ls[0]) + joined(ls[0].after) + if ls.len() == 1 {
            seq![125u8]
        } else {
            seq![44u8] + layers_text(ls.subrange(1, ls.len() as int), close)
        }
    }
}

/// A whole keymap section: header, `=`, `{`, layers, `}`, with a gap
/// between every two tokens.
pub open spec fn section_text(eq: Gap, open: Gap, ls: Seq<LayerSlot>, close: Gap) -> Seq<u8> {
    keymaps_header() + joined(eq) + seq![61u8] + joined(open) + seq![123u8] + layers_text(ls, close)
}

pub open spec fn slot_keys(ks: Seq<KeySlot>) -> Seq<KeyV> {
    ks.map_values(|k: KeySlot| k.key)
}

pub open spec fn slot_layers(ls: Seq<LayerSlot>) -> Seq<Seq<KeyV>> {
    ls.map_values(|l: LayerSlot| slot_keys(l.keys))
}

pub open spec fn layer_ok(l: LayerSlot) -> bool {
    &&& is_gap(l.before) && is_gap(l.open) && is_gap(l.close) && is_gap(l.after)
    &&& forall|i: int| 0 <= i < l.keys.len() ==> is_gap(#[trigger] l.keys[i].before) && is_gap(l.keys[i].after) && writable(l.keys[i].key)
}

/// Text that starts with a byte that is neither whitespace nor a slash stops
/// the skipper at once.
proof fn lemma_no_skip(v: Seq<u8>)
    requires
        v.len() > 0,
        !is_ws(v[0]),
        v[0] != 47,
    ensures
        skip(v) == Ok::<Seq<u8>, ParseError>(v),
{
}

/// A gap followed by text that does not start an identifier does not start one either.
proof fn lemma_gap_then(g: Gap, v: Seq<u8>)
    requires
        is_gap(g),
        v.len() > 0,
        !is_ident_byte(v[0]),
    ensures
        (joined(g) + v).len() > 0,
        !is_ident_byte((joined(g) + v)[0]),
{
    if g.len() == 0 {
        assert(joined(g) + v =~= v);
    } else {
        assert(is_insignificant(g[0]));
        let rest = g.subrange(1, g.len() as int);
        assert(joined(g) + v =~= g[0] + (joined(rest) + v));
    }
}

proof fn lemma_skip_gap(g: Gap, v: Seq<u8>)
    requires
        is_gap(g),
    ensures
        skip(joined(g) + v) == skip(v),
{
    lemma_comments_between_tokens(g, v);
}

/// A writable key followed by text that does not continue an identifier reads back as itself.
proof fn lemma_key_reads_back(k: KeyV, v: Seq<u8>)
    requires
        writable(k),
        v.len() > 0,
        !is_ident_byte(v[0]),
    ensures
        key_raw(key_bytes(k) + v) == Ok::<(KeyV, Seq<u8>), ParseError>((k, v)),
        key_bytes(k).len() > 0,
        !is_ws((key_bytes(k) + v)[0]),
        (key_bytes(k) + v)[0] != 47,
{
    match k {
        KeyV::Fx(n) => {
            lemma_fn_key_round_trip(n, v);
            assert(seq![70u8, 78u8] + decimal_digits(n as nat) + v =~= key_bytes(k) + v);
        },
        KeyV::Named(s) => {
            let b = key_bytes(k);
            let t = b + v;
            assert(b.len() == s.len());
            assert forall|m: int| 0 <= m < b.len() implies is_ident_byte(#[trigger] t[m]) by {
                assert(t[m] == s[m] as u8);
            }
            assert(t[b.len() as int] == v[0]);
            lemma_ident_run(t, b.len() as int);
            assert(t.subrange(0, b.len() as int) =~= b);
            assert(at(t, b.len() as int) =~= v);
            assert(chars_of(b) =~= s);
            assert(t[0] == s[0] as u8);
            if t.len() >= 3 {
                assert(t[1] == (if b.len() > 1 { s[1] as u8 } else { v[0] }));
            }
            if b.len() >= 3 {
                assert(t[1] == s[1] as u8 && t[2] == s[2] as u8);
                assert(s[1] as u8 as char == s[1]);
                assert(s[0] as u8 as char == s[0]);
            }
        },
    }
}

proof fn lemma_keys_text(ks: Seq<KeySlot>, close: Gap, t: Seq<u8>)
    requires
        is_gap(close),
        forall|i: int| 0 <= i < ks.len() ==> is_gap(#[trigger] ks[i].before) && is_gap(ks[i].after) && writable(ks[i].key),
    ensures
        key_list(keys_text(ks, close) + t) == Ok::<(Seq<KeyV>, Seq<u8>), ParseError>((slot_keys(ks), t)),
    decreases ks.len(),
{
    if ks.len() == 0 {
        assert(keys_text(ks, close) + t =~= joined(close) + (seq![41u8] + t));
        lemma_skip_gap(close, seq![41u8] + t);
        assert(at(seq![41u8] + t, 1) =~= t);
        assert(slot_keys(ks) =~= seq![]);
    } else {
        let k = ks[0];
        let rest = ks.subrange(1, ks.len() as int);
        let tail = if ks.len() == 1 {
            seq![41u8] + t
        } else {
            seq![44u8] + (keys_text(rest, close) + t)
        };
        assert(keys_text(ks, close) + t =~= joined(k.before) + (key_bytes(k.key) + (joined(k.after) + tail)));
        lemma_gap_then(k.after, tail);
        lemma_key_reads_back(k.key, joined(k.after) + tail);
        lemma_skip_gap(k.before, key_bytes(k.key) + (joined(k.after) + tail));
        lemma_no_skip(key_bytes(k.key) + (joined(k.after) + tail));
        lemma_skip_gap(k.after, tail);
        assert(tail[0] == 41 || tail[0] == 44);
        lemma_no_skip(tail);
        if ks.len() == 1 {
            assert(at(tail, 1) =~= t);
            assert(slot_keys(ks) =~= seq![k.key]);
        } else {
            assert(at(tail, 1) =~= keys_text(rest, close) + t);
            assert forall|i: int| 0 <= i < rest.len() implies is_gap(#[trigger] rest[i].before) && is_gap(rest[i].after) && writable(rest[i].key) by {
                assert(rest[i] == ks[i + 1]);
            }
            lemma_keys_text(rest, close, t);
            assert(slot_keys(ks) =~= seq![k.key] + slot_keys(rest));
        }
    }
}

proof fn lemma_keymap_word()
    ensures
        "KEYMAP".spec_bytes() == seq![75u8, 69u8, 89u8, 77u8, 65u8, 80u8],
{
    reveal_strlit("KEYMAP");
    broadcast use vstd::string::is_ascii_spec_bytes;

    assert(vstd::string::is_ascii("KEYMAP"));
    assert("KEYMAP".spec_bytes() =~= seq![75u8, 69u8, 89u8, 77u8, 65u8, 80u8]);
}

proof fn lemma_call_text(l: LayerSlot, t: Seq<u8>)
    requires
        layer_ok(l),
    ensures
        keymap(call_text(l) + t) == Ok::<(Seq<KeyV>, Seq<u8>), ParseError>((slot_keys(l.keys), t)),
{
    lemma_keymap_word();
    let kw = "KEYMAP".spec_bytes();
    let after = seq![40u8] + (keys_text(l.keys, l.close) + t);
    let v = call_text(l) + t;
    assert(v =~= kw + (joined(l.open) + after));
    lemma_gap_then(l.open, after);
    let u = joined(l.open) + after;
    assert forall|m: int| 0 <= m < 6 implies is_ident_byte(#[trigger] v[m]) by {
        assert(v[m] == kw[m]);
    }
    assert(v[6] == u[0]);
    lemma_ident_run(v, 6);
    lemma_no_skip(v);
    assert(v.subrange(0, 6) =~= kw);
    assert(at(v, 6) =~= u);
    lemma_skip_gap(l.open, after);
    lemma_no_skip(after);
    assert(at(after, 1) =~= keys_text(l.keys, l.close) + t);
    lemma_keys_text(l.keys, l.close, t);
}

proof fn lemma_layers_text(ls: Seq<LayerSlot>, close: Gap, t: Seq<u8>)
    requires
        is_gap(close),
        forall|i: int| 0 <= i < ls.len() ==> layer_ok(#[trigger] ls[i]),
    ensures
        keymap_list(layers_text(ls, close) + t) == Ok::<(Seq<Seq<KeyV>>, Seq<u8>), ParseError>((slot_layers(ls), t)),
    decreases ls.len(),
{
    if ls.len() == 0 {
        assert(layers_text(ls, close) + t =~= joined(close) + (seq![125u8] + t));
        lemma_skip_gap(close, seq![125u8] + t);
        assert(at(seq![125u8] + t, 1) =~= t);
        assert(slot_layers(ls) =~= seq![]);
    } else {
        let l = ls[0];
        assert(layer_ok(l));
        let rest = ls.subrange(1, ls.len() as int);
        let tail = if ls.len() == 1 {
            seq![125u8] + t
        } else {
            seq![44u8] + (layers_text(rest, close) + t)
        };
        let after = joined(l.after) + tail;
        assert(layers_text(ls, close) + t =~= joined(l.before) + (call_text(l) + after));
        lemma_skip_gap(l.before, call_text(l) + after);
        lemma_keymap_word();
        assert((call_text(l) + after)[0] == 75);
        lemma_no_skip(call_text(l) + after);
        lemma_call_text(l, after);
        lemma_skip_gap(l.after, tail);
        lemma_no_skip(tail);
        if ls.len() == 1 {
            assert(at(tail, 1) =~= t);
            assert(slot_layers(ls) =~= seq![slot_keys(l.keys)]);
        } else {
            assert(at(tail, 1) =~= layers_text(rest, close) + t);
            assert forall|i: int| 0 <= i < rest.len() implies layer_ok(#[trigger] rest[i]) by {
                assert(rest[i] == ls[i + 1]);
            }
            lemma_layers_text(rest, close, t);
            assert(slot_layers(ls) =~= seq![slot_keys(l.keys)] + slot_layers(rest));
        }
    }
}

/// A keymap section parses to its layers whatever whitespace and comments
/// stand between its tokens: each gap may be empty or hold any number of
/// spaces, tabs, line breaks, line comments and block comments.
pub proof fn lemma_keymap_section_with_gaps(eq: Gap, open: Gap, ls: Seq<LayerSlot>, close: Gap, t: Seq<u8>)
    requires
        is_gap(eq),
        is_gap(open),
        is_gap(close),
        forall|i: int| 0 <= i < ls.len() ==> layer_ok(#[trigger] ls[i]),
    ensures
        keymaps_section(section_text(eq, open, ls, close) + t) == Ok::<Seq<Seq<KeyV>>, ParseError>(slot_layers(ls)),
{
    crate::laws::lemma_headers_nonempty();
    let h = keymaps_header();
    let rest = joined(eq) + (seq![61u8] + (joined(open) + (seq![123u8] + (layers_text(ls, close) + t))));
    let s = section_text(eq, open, ls, close) + t;
    assert(s =~= h + rest);
    assert(s.subrange(0, h.len() as int) =~= h);
    assert(starts_with(s, h));
    assert(at(s, h.len() as int) =~= rest);
    assert(find_in(s, h, Mode::Code) == Ok::<Seq<u8>, ParseError>(rest));
    let r2 = seq![61u8] + (joined(open) + (seq![123u8] + (layers_text(ls, close) + t)));
    lemma_skip_gap(eq, r2);
    lemma_no_skip(r2);
    let r3 = seq![123u8] + (layers_text(ls, close) + t);
    assert(at(r2, 1) =~= joined(open) + r3);
    lemma_skip_gap(open, r3);
    lemma_no_skip(r3);
    assert(at(r3, 1) =~= layers_text(ls, close) + t);
    lemma_layers_text(ls, close, t);
}

/// The bytes of the words that name actions, and what tells them apart.
proof fn lemma_action_words()
    ensures
        "ACTION_".spec_bytes() == seq![65u8, 67u8, 84u8, 73u8, 79u8, 78u8, 95u8],
        "FUNCTION".spec_bytes() == seq![70u8, 85u8, 78u8, 67u8, 84u8, 73u8, 79u8, 78u8],
        "FUNCTION_TAP".spec_bytes() == seq![70u8, 85u8, 78u8, 67u8, 84u8, 73u8, 79u8, 78u8, 95u8, 84u8, 65u8, 80u8],
        "LAYER_MOMENTARY".spec_bytes() == seq![76u8, 65u8, 89u8, 69u8, 82u8, 95u8, 77u8, 79u8, 77u8, 69u8, 78u8, 84u8, 65u8, 82u8, 89u8],
        "LAYER_SET".spec_bytes() == seq![76u8, 65u8, 89u8, 69u8, 82u8, 95u8, 83u8, 69u8, 84u8],
        "LAYER_SET_CLEAR".spec_bytes() == seq![76u8, 65u8, 89u8, 69u8, 82u8, 95u8, 83u8, 69u8, 84u8, 95u8, 67u8, 76u8, 69u8, 65u8, 82u8],
        "LAYER_TOGGLE".spec_bytes() == seq![76u8, 65u8, 89u8, 69u8, 82u8, 95u8, 84u8, 79u8, 71u8, 71u8, 76u8, 69u8],
        "LAYER_TAP_TOGGLE".spec_bytes() == seq![76u8, 65u8, 89u8, 69u8, 82u8, 95u8, 84u8, 65u8, 80u8, 95u8, 84u8, 79u8, 71u8, 71u8, 76u8, 69u8],
        "DEFAULT_LAYER_SET".spec_bytes() == seq![68u8, 69u8, 70u8, 65u8, 85u8, 76u8, 84u8, 95u8, 76u8, 65u8, 89u8, 69u8, 82u8, 95u8, 83u8, 69u8, 84u8],
        "LAYER_TAP_KEY".spec_bytes() == seq![76u8, 65u8, 89u8, 69u8, 82u8, 95u8, 84u8, 65u8, 80u8, 95u8, 75u8, 69u8, 89u8],
        "MODS_KEY".spec_bytes() == seq![77u8, 79u8, 68u8, 83u8, 95u8, 75u8, 69u8, 89u8],
        "MODS_TAP_KEY".spec_bytes() == seq![77u8, 79u8, 68u8, 83u8, 95u8, 84u8, 65u8, 80u8, 95u8, 75u8, 69u8, 89u8],
        "ACTION_".spec_bytes().len() == 7 && "ACTION_".spec_bytes()[0] == 65 && "ACTION_".spec_bytes()[6] == 95,
        "FUNCTION".spec_bytes().len() == 8 && "FUNCTION".spec_bytes()[0] == 70 && "FUNCTION".spec_bytes()[6] == 79,
        "FUNCTION_TAP".spec_bytes().len() == 12 && "FUNCTION_TAP".spec_bytes()[0] == 70 && "FUNCTION_TAP".spec_bytes()[6] == 79,
        "LAYER_MOMENTARY".spec_bytes().len() == 15 && "LAYER_MOMENTARY".spec_bytes()[0] == 76 && "LAYER_MOMENTARY".spec_bytes()[6] == 77,
        "LAYER_SET".spec_bytes().len() == 9 && "LAYER_SET".spec_bytes()[0] == 76 && "LAYER_SET".spec_bytes()[6] == 83,
        "LAYER_SET_CLEAR".spec_bytes().len() == 15 && "LAYER_SET_CLEAR".spec_bytes()[0] == 76 && "LAYER_SET_CLEAR".spec_bytes()[6] == 83,
        "LAYER_TOGGLE".spec_bytes().len() == 12 && "LAYER_TOGGLE".spec_bytes()[0] == 76 && "LAYER_TOGGLE".spec_bytes()[6] == 84,
        "LAYER_TAP_TOGGLE".spec_bytes().len() == 16 && "LAYER_TAP_TOGGLE".spec_bytes()[0] == 76 && "LAYER_TAP_TOGGLE".spec_bytes()[6] == 84,
        "DEFAULT_LAYER_SET".spec_bytes().len() == 17 && "DEFAULT_LAYER_SET".spec_bytes()[0] == 68 && "DEFAULT_LAYER_SET".spec_bytes()[6] == 84,
        "LAYER_TAP_KEY".spec_bytes().len() == 13 && "LAYER_TAP_KEY".spec_bytes()[0] == 76 && "LAYER_TAP_KEY".spec_bytes()[6] == 84,
        "MODS_KEY".spec_bytes().len() == 8 && "MODS_KEY".spec_bytes()[0] == 77 && "MODS_KEY".spec_bytes()[6] == 69,
        "MODS_TAP_KEY".spec_bytes().len() == 12 && "MODS_TAP_KEY".spec_bytes()[0] == 77 && "MODS_TAP_KEY".spec_bytes()[6] == 65,
        forall|m: int| 0 <= m < 7 ==> is_ident_byte(#[trigger] "ACTION_".spec_bytes()[m]),
        forall|m: int| 0 <= m < 8 ==> is_ident_byte(#[trigger] "FUNCTION".spec_bytes()[m]),
        forall|m: int| 0 <= m < 12 ==> is_ident_byte(#[trigger] "FUNCTION_TAP".spec_bytes()[m]),
        forall|m: int| 0 <= m < 15 ==> is_ident_byte(#[trigger] "LAYER_MOMENTARY".spec_bytes()[m]),
        forall|m: int| 0 <= m < 9 ==> is_ident_byte(#[trigger] "LAYER_SET".spec_bytes()[m]),
        forall|m: int| 0 <= m < 15 ==> is_ident_byte(#[trigger] "LAYER_SET_CLEAR".spec_bytes()[m]),
        forall|m: int| 0 <= m < 12 ==> is_ident_byte(#[trigger] "LAYER_TOGGLE".spec_bytes()[m]),
        forall|m: int| 0 <= m < 16 ==> is_ident_byte(#[trigger] "LAYER_TAP_TOGGLE".spec_bytes()[m]),
        forall|m: int| 0 <= m < 17 ==> is_ident_byte(#[trigger] "DEFAULT_LAYER_SET".spec_bytes()[m]),
        forall|m: int| 0 <= m < 13 ==> is_ident_byte(#[trigger] "LAYER_TAP_KEY".spec_bytes()[m]),
        forall|m: int| 0 <= m < 8 ==> is_ident_byte(#[trigger] "MODS_KEY".spec_bytes()[m]),
        forall|m: int| 0 <= m < 12 ==> is_ident_byte(#[trigger] "MODS_TAP_KEY".spec_bytes()[m]),
{
    reveal_strlit("ACTION_");
    reveal_strlit("FUNCTION");
    reveal_strlit("FUNCTION_TAP");
    reveal_strlit("LAYER_MOMENTARY");
    reveal_strlit("LAYER_SET");
    reveal_strlit("LAYER_SET_CLEAR");
    reveal_strlit("LAYER_TOGGLE");
    reveal_strlit("LAYER_TAP_TOGGLE");
    reveal_strlit("DEFAULT_LAYER_SET");
    reveal_strlit("LAYER_TAP_KEY");
    reveal_strlit("MODS_KEY");
    reveal_strlit("MODS_TAP_KEY");
    broadcast use vstd::string::is_ascii_spec_bytes;

    assert(vstd::string::is_ascii("ACTION_"));
    assert(vstd::string::is_ascii("FUNCTION"));
    assert(vstd::string::is_ascii("FUNCTION_TAP"));
    assert(vstd::string::is_ascii("LAYER_MOMENTARY"));
    assert(vstd::string::is_ascii("LAYER_SET"));
    assert(vstd::string::is_ascii("LAYER_SET_CLEAR"));
    assert(vstd::string::is_ascii("LAYER_TOGGLE"));
    assert(vstd::string::is_ascii("LAYER_TAP_TOGGLE"));
    assert(vstd::string::is_ascii("DEFAULT_LAYER_SET"));
    assert(vstd::string::is_ascii("LAYER_TAP_KEY"));
    assert(vstd::string::is_ascii("MODS_KEY"));
    assert(vstd::string::is_ascii("MODS_TAP_KEY"));
    assert("ACTION_".spec_bytes() =~= seq![65u8, 67u8, 84u8, 73u8, 79u8, 78u8, 95u8]);
    assert("FUNCTION".spec_bytes() =~= seq![70u8, 85u8, 78u8, 67u8, 84u8, 73u8, 79u8, 78u8]);
    assert("FUNCTION_TAP".spec_bytes() =~= seq![70u8, 85u8, 78u8, 67u8, 84u8, 73u8, 79u8, 78u8, 95u8, 84u8, 65u8, 80u8]);
    assert("LAYER_MOMENTARY".spec_bytes() =~= seq![76u8, 65u8, 89u8, 69u8, 82u8, 95u8, 77u8, 79u8, 77u8, 69u8, 78u8, 84u8, 65u8, 82u8, 89u8]);
    assert("LAYER_SET".spec_bytes() =~= seq![76u8, 65u8, 89u8, 69u8, 82u8, 95u8, 83u8, 69u8, 84u8]);
    assert("LAYER_SET_CLEAR".spec_bytes() =~= seq![76u8, 65u8, 89u8, 69u8, 82u8, 95u8, 83u8, 69u8, 84u8, 95u8, 67u8, 76u8, 69u8, 65u8, 82u8]);
    assert("LAYER_TOGGLE".spec_bytes() =~= seq![76u8, 65u8, 89u8, 69u8, 82u8, 95u8, 84u8, 79u8, 71u8, 71u8, 76u8, 69u8]);
    assert("LAYER_TAP_TOGGLE".spec_bytes() =~= seq![76u8, 65u8, 89u8, 69u8, 82u8, 95u8, 84u8, 65u8, 80u8, 95u8, 84u8, 79u8, 71u8, 71u8, 76u8, 69u8]);
    assert("DEFAULT_LAYER_SET".spec_bytes() =~= seq![68u8, 69u8, 70u8, 65u8, 85u8, 76u8, 84u8, 95u8, 76u8, 65u8, 89u8, 69u8, 82u8, 95u8, 83u8, 69u8, 84u8]);
    assert("LAYER_TAP_KEY".spec_bytes() =~= seq![76u8, 65u8, 89u8, 69u8, 82u8, 95u8, 84u8, 65u8, 80u8, 95u8, 75u8, 69u8, 89u8]);
    assert("MODS_KEY".spec_bytes() =~= seq![77u8, 79u8, 68u8, 83u8, 95u8, 75u8, 69u8, 89u8]);
    assert("MODS_TAP_KEY".spec_bytes() =~= seq![77u8, 79u8, 68u8, 83u8, 95u8, 84u8, 65u8, 80u8, 95u8, 75u8, 69u8, 89u8]);
    assert forall|m: int| 0 <= m < 7 implies is_ident_byte(#[trigger] "ACTION_".spec_bytes()[m]) by {}
    assert forall|m: int| 0 <= m < 8 implies is_ident_byte(#[trigger] "FUNCTION".spec_bytes()[m]) by {}
    assert forall|m: int| 0 <= m < 12 implies is_ident_byte(#[trigger] "FUNCTION_TAP".spec_bytes()[m]) by {}
    assert forall|m: int| 0 <= m < 15 implies is_ident_byte(#[trigger] "LAYER_MOMENTARY".spec_bytes()[m]) by {}
    assert forall|m: int| 0 <= m < 9 implies is_ident_byte(#[trigger] "LAYER_SET".spec_bytes()[m]) by {}
    assert forall|m: int| 0 <= m < 15 implies is_ident_byte(#[trigger] "LAYER_SET_CLEAR".spec_bytes()[m]) by {}
    assert forall|m: int| 0 <= m < 12 implies is_ident_byte(#[trigger] "LAYER_TOGGLE".spec_bytes()[m]) by {}
    assert forall|m: int| 0 <= m < 16 implies is_ident_byte(#[trigger] "LAYER_TAP_TOGGLE".spec_bytes()[m]) by {}
    assert forall|m: int| 0 <= m < 17 implies is_ident_byte(#[trigger] "DEFAULT_LAYER_SET".spec_bytes()[m]) by {}
    assert forall|m: int| 0 <= m < 13 implies is_ident_byte(#[trigger] "LAYER_TAP_KEY".spec_bytes()[m]) by {}
    assert forall|m: int| 0 <= m < 8 implies is_ident_byte(#[trigger] "MODS_KEY".spec_bytes()[m]) by {}
    assert forall|m: int| 0 <= m < 12 implies is_ident_byte(#[trigger] "MODS_TAP_KEY".spec_bytes()[m]) by {}
}

/// A token after the gap before it.
pub open spec fn tok(g: Gap, b: Seq<u8>) -> Seq<u8> {
    joined(g) + b
}

/// A name that can be written so that it reads back: identifier characters.
pub open spec fn writable_name(s: Seq<char>) -> bool {
    s.len() > 0 && forall|i: int| 0 <= i < s.len() ==> is_ident_byte(#[trigger] s[i] as u8) && s[i] as u8 as char == s[i]
}

pub open spec fn name_bytes(s: Seq<char>) -> Seq<u8> {
    s.map_values(|c: char| c as u8)
}

/// The word that follows `ACTION_` for an action.
pub open spec fn suffix_of(a: ActionV) -> Seq<u8> {
    match a {
        ActionV::Function(_) => "FUNCTION".spec_bytes(),
        ActionV::FunctionTap(_) => "FUNCTION_TAP".spec_bytes(),
        ActionV::LayerMomentary(_) => "LAYER_MOMENTARY".spec_bytes(),
        ActionV::LayerSet(_, _) => "LAYER_SET".spec_bytes(),
        ActionV::LayerSetClear(_) => "LAYER_SET_CLEAR".spec_bytes(),
        ActionV::LayerToggle(_) => "LAYER_TOGGLE".spec_bytes(),
        ActionV::LayerTapToggle(_) => "LAYER_TAP_TOGGLE".spec_bytes(),
        ActionV::DefaultLayerSet(_) => "DEFAULT_LAYER_SET".spec_bytes(),
        ActionV::LayerTapKey(_, _) => "LAYER_TAP_KEY".spec_bytes(),
        ActionV::ModsKey(_, _) => "MODS_KEY".spec_bytes(),
        ActionV::ModsTapKey(_, _) => "MODS_TAP_KEY".spec_bytes(),
    }
}

/// The parenthesized arguments of an action; `g` holds the gaps before `(`,
/// before the first argument, before `,` (or `)` when there is one
/// argument), before the second argument, and before `)`.
pub open spec fn args_text(a: ActionV, g: Seq<Gap>) -> Seq<u8> {
    match a {
        ActionV::Function(k) => one_arg(g, key_bytes(k)),
        ActionV::FunctionTap(k) => one_arg(g, key_bytes(k)),
        ActionV::LayerMomentary(l) => one_arg(g, decimal_digits(l as nat)),
        ActionV::LayerSet(l, s) => two_args(g, decimal_digits(l as nat), name_bytes(s)),
        ActionV::LayerSetClear(l) => one_arg(g, decimal_digits(l as nat)),
        ActionV::LayerToggle(l) => one_arg(g, decimal_digits(l as nat)),
        ActionV::LayerTapToggle(l) => one_arg(g, decimal_digits(l as nat)),
        ActionV::DefaultLayerSet(l) => one_arg(g, decimal_digits(l as nat)),
        ActionV::LayerTapKey(l, k) => two_args(g, decimal_digits(l as nat), key_bytes(k)),
        ActionV::ModsKey(m, k) => two_args(g, key_bytes(m), key_bytes(k)),
        ActionV::ModsTapKey(m, k) => two_args(g, key_bytes(m), key_bytes(k)),
    }
}

pub open spec fn one_arg(g: Seq<Gap>, x: Seq<u8>) -> Seq<u8> {
    tok(g[0], seq![40u8]) + (tok(g[1], x) + tok(g[2], seq![41u8]))
}

pub open spec fn two_args(g: Seq<Gap>, x: Seq<u8>, y: Seq<u8>) -> Seq<u8> {
    tok(g[0], seq![40u8]) + (tok(g[1], x) + (tok(g[2], seq![44u8]) + (tok(g[3], y) + tok(
        g[4],
        seq![41u8],
    ))))
}

/// An action whose keys and names can be written.
pub open spec fn writable_action(a: ActionV) -> bool {
    match a {
        ActionV::Function(k) => writable(k),
        ActionV::FunctionTap(k) => writable(k),
        ActionV::LayerSet(_, s) => writable_name(s),
        ActionV::LayerTapKey(_, k) => writable(k),
        ActionV::ModsKey(m, k) => writable(m) && writable(k),
        ActionV::ModsTapKey(m, k) => writable(m) && writable(k),
        _ => true,
    }
}

/// An entry of the action table with the gap before each of its tokens.
pub ghost struct EntrySlot {
    /// Before `[`.
    pub before: Gap,
    /// Before the index.
    pub index_gap: Gap,
    /// Before `]`.
    pub bracket_gap: Gap,
    /// Before `=`.
    pub eq_gap: Gap,
    /// Before `ACTION_...`.
    pub word_gap: Gap,
    pub index: u64,
    pub action: ActionV,
    /// Inside the call, as for `args_text`.
    pub inner: Seq<Gap>,
    /// Before the `,` or `}` that follows the entry.
    pub after: Gap,
}

pub open spec fn entry_ok(e: EntrySlot) -> bool {
    &&& is_gap(e.before) && is_gap(e.index_gap) && is_gap(e.bracket_gap) && is_gap(e.eq_gap)
    &&& is_gap(e.word_gap) && is_gap(e.after)
    &&& e.inner.len() == 5
    &&& forall|i: int| 0 <= i < 5 ==> is_gap(#[trigger] e.inner[i])
    &&& writable_action(e.action)
}

/// An entry from its `[` on.
pub open spec fn entry_core(e: EntrySlot) -> Seq<u8> {
    seq![91u8] + (tok(e.index_gap, decimal_digits(e.index as nat)) + (tok(e.bracket_gap, seq![93u8])
        + (tok(e.eq_gap, seq![61u8]) + (tok(e.word_gap, action_word(e.action)) + args_text(
        e.action,
        e.inner,
    )))))
}

/// An entry with the gap before it.
pub open spec fn entry_text(e: EntrySlot) -> Seq<u8> {
    joined(e.before) + entry_core(e)
}

/// The entries of the action section after its `{`, separated by commas, then `}`.
pub open spec fn entries_text(es: Seq<EntrySlot>, close: Gap) -> Seq<u8>
    decreases es.len(),
{
    if es.len() == 0 {
        tok(close, seq![125u8])
    } else {
        entry_text(es[0]) + (joined(es[0].after) + if es.len() == 1 {
            seq![125u8]
        } else {
            seq![44u8] + entries_text(es.subrange(1, es.len() as int), close)
        })
    }
}

pub open spec fn slot_entries(es: Seq<EntrySlot>) -> Seq<(u64, ActionV)> {
    es.map_values(|e: EntrySlot| (e.index, e.action))
}

/// A whole action section: header, `=`, `{`, entries, `}`, with a gap
/// between every two tokens.
pub open spec fn action_section_text(eq: Gap, open: Gap, es: Seq<EntrySlot>, close: Gap) -> Seq<u8> {
    actions_header() + (tok(eq, seq![61u8]) + (tok(open, seq![123u8]) + entries_text(es, close)))
}

proof fn lemma_punct_tok(g: Gap, c: u8, t: Seq<u8>)
    requires
        is_gap(g),
        !is_ws(c),
        c != 47,
    ensures
        punct(tok(g, seq![c]) + t, c) == Ok::<Seq<u8>, ParseError>(t),
        (tok(g, seq![c]) + t).len() > 0,
        !is_ident_byte(c) ==> !is_ident_byte((tok(g, seq![c]) + t)[0]),
{
    let v = seq![c] + t;
    assert(tok(g, seq![c]) + t =~= joined(g) + v);
    lemma_skip_gap(g, v);
    lemma_no_skip(v);
    assert(at(v, 1) =~= t);
    if !is_ident_byte(c) {
        lemma_gap_then(g, v);
    } else {
        lemma_gap_then_len(g, v);
    }
}

proof fn lemma_gap_then_len(g: Gap, v: Seq<u8>)
    requires
        v.len() > 0,
    ensures
        (joined(g) + v).len() > 0,
{
}

proof fn lemma_key_tok(g: Gap, k: KeyV, v: Seq<u8>)
    requires
        is_gap(g),
        writable(k),
        v.len() > 0,
        !is_ident_byte(v[0]),
    ensures
        key(tok(g, key_bytes(k)) + v) == Ok::<(KeyV, Seq<u8>), ParseError>((k, v)),
{
    let w = key_bytes(k) + v;
    assert(tok(g, key_bytes(k)) + v =~= joined(g) + w);
    lemma_key_reads_back(k, v);
    lemma_skip_gap(g, w);
    lemma_no_skip(w);
}

proof fn lemma_integer_reads_back(l: u64, v: Seq<u8>)
    requires
        v.len() > 0,
        !is_ident_byte(v[0]),
    ensures
        integer_raw(decimal_digits(l as nat) + v) == Ok::<(u64, Seq<u8>), ParseError>((l, v)),
        !is_ws((decimal_digits(l as nat) + v)[0]),
        (decimal_digits(l as nat) + v)[0] != 47,
{
    let d = decimal_digits(l as nat);
    crate::laws::lemma_decimal_digits(l as nat);
    let u = d + v;
    assert forall|m: int| 0 <= m < d.len() implies is_digit(#[trigger] u[m]) by {
        assert(u[m] == d[m]);
    }
    assert(u[d.len() as int] == v[0]);
    lemma_digit_run(u, d.len() as int);
    assert(u.subrange(0, d.len() as int) =~= d);
    assert(at(u, d.len() as int) =~= v);
    assert(u[0] == d[0]);
}

proof fn lemma_integer_tok(g: Gap, l: u64, v: Seq<u8>)
    requires
        is_gap(g),
        v.len() > 0,
        !is_ident_byte(v[0]),
    ensures
        integer(tok(g, decimal_digits(l as nat)) + v) == Ok::<(u64, Seq<u8>), ParseError>((l, v)),
{
    let w = decimal_digits(l as nat) + v;
    assert(tok(g, decimal_digits(l as nat)) + v =~= joined(g) + w);
    lemma_integer_reads_back(l, v);
    lemma_skip_gap(g, w);
    lemma_no_skip(w);
}

proof fn lemma_name_tok(g: Gap, s: Seq<char>, v: Seq<u8>)
    requires
        is_gap(g),
        writable_name(s),
        v.len() > 0,
        !is_ident_byte(v[0]),
    ensures
        word(tok(g, name_bytes(s)) + v) == Ok::<(Seq<u8>, Seq<u8>), ParseError>((name_bytes(s), v)),
        chars_of(name_bytes(s)) == s,
{
    let b = name_bytes(s);
    let w = b + v;
    assert(tok(g, b) + v =~= joined(g) + w);
    assert forall|m: int| 0 <= m < b.len() implies is_ident_byte(#[trigger] w[m]) by {
        assert(w[m] == s[m] as u8);
    }
    assert(w[b.len() as int] == v[0]);
    lemma_ident_run(w, b.len() as int);
    assert(w.subrange(0, b.len() as int) =~= b);
    assert(at(w, b.len() as int) =~= v);
    assert(chars_of(b) =~= s);
    assert(w[0] == s[0] as u8);
    lemma_skip_gap(g, w);
    lemma_no_skip(w);
}

proof fn lemma_args_text(a: ActionV, g: Seq<Gap>, t: Seq<u8>)
    requires
        g.len() == 5,
        forall|i: int| 0 <= i < 5 ==> is_gap(#[trigger] g[i]),
        writable_action(a),
    ensures
        action_args(suffix_of(a), args_text(a, g) + t) == Ok::<(ActionV, Seq<u8>), ParseError>((a, t)),
        (args_text(a, g) + t).len() > 0,
        !is_ident_byte((args_text(a, g) + t)[0]),
{
    assert(is_gap(g[0]) && is_gap(g[1]) && is_gap(g[2]) && is_gap(g[3]) && is_gap(g[4]));
    lemma_action_words();
    match a {
        ActionV::Function(k) => {
            lemma_one_key(g, k, t);
        },
        ActionV::FunctionTap(k) => {
            lemma_one_key(g, k, t);
        },
        ActionV::LayerMomentary(l) => {
            lemma_one_layer(g, l, t);
        },
        ActionV::LayerSet(l, s) => {
            lemma_layer_name(g, l, s, t);
        },
        ActionV::LayerSetClear(l) => {
            lemma_one_layer(g, l, t);
        },
        ActionV::LayerToggle(l) => {
            lemma_one_layer(g, l, t);
        },
        ActionV::LayerTapToggle(l) => {
            lemma_one_layer(g, l, t);
        },
        ActionV::DefaultLayerSet(l) => {
            lemma_one_layer(g, l, t);
        },
        ActionV::LayerTapKey(l, k) => {
            lemma_layer_key(g, l, k, t);
        },
        ActionV::ModsKey(m, k) => {
            lemma_two_keys(g, m, k, t);
        },
        ActionV::ModsTapKey(m, k) => {
            lemma_two_keys(g, m, k, t);
        },
    }
}

proof fn lemma_one_key(g: Seq<Gap>, k: KeyV, t: Seq<u8>)
    requires
        g.len() == 5,
        forall|i: int| 0 <= i < 5 ==> is_gap(#[trigger] g[i]),
        writable(k),
    ensures
        args_key(one_arg(g, key_bytes(k)) + t) == Ok::<(KeyV, Seq<u8>), ParseError>((k, t)),
        (one_arg(g, key_bytes(k)) + t).len() > 0,
        !is_ident_byte((one_arg(g, key_bytes(k)) + t)[0]),
{
    assert(is_gap(g[0]) && is_gap(g[1]) && is_gap(g[2]));
    let c = tok(g[2], seq![41u8]) + t;
    lemma_punct_tok(g[2], 41, t);
    let x = tok(g[1], key_bytes(k)) + c;
    lemma_key_tok(g[1], k, c);
    assert(one_arg(g, key_bytes(k)) + t =~= tok(g[0], seq![40u8]) + x);
    assert(tok(g[1], key_bytes(k)) + c =~= x);
    lemma_punct_tok(g[0], 40, x);
}

proof fn lemma_one_layer(g: Seq<Gap>, l: u64, t: Seq<u8>)
    requires
        g.len() == 5,
        forall|i: int| 0 <= i < 5 ==> is_gap(#[trigger] g[i]),
    ensures
        args_layer(one_arg(g, decimal_digits(l as nat)) + t) == Ok::<(u64, Seq<u8>), ParseError>((l, t)),
        (one_arg(g, decimal_digits(l as nat)) + t).len() > 0,
        !is_ident_byte((one_arg(g, decimal_digits(l as nat)) + t)[0]),
{
    assert(is_gap(g[0]) && is_gap(g[1]) && is_gap(g[2]));
    let c = tok(g[2], seq![41u8]) + t;
    lemma_punct_tok(g[2], 41, t);
    let x = tok(g[1], decimal_digits(l as nat)) + c;
    lemma_integer_tok(g[1], l, c);
    assert(one_arg(g, decimal_digits(l as nat)) + t =~= tok(g[0], seq![40u8]) + x);
    lemma_punct_tok(g[0], 40, x);
}

proof fn lemma_layer_name(g: Seq<Gap>, l: u64, s: Seq<char>, t: Seq<u8>)
    requires
        g.len() == 5,
        forall|i: int| 0 <= i < 5 ==> is_gap(#[trigger] g[i]),
        writable_name(s),
    ensures
        args_layer_name(two_args(g, decimal_digits(l as nat), name_bytes(s)) + t) == Ok::<
            ((u64, Seq<u8>), Seq<u8>),
            ParseError,
        >(((l, name_bytes(s)), t)),
        chars_of(name_bytes(s)) == s,
        (two_args(g, decimal_digits(l as nat), name_bytes(s)) + t).len() > 0,
        !is_ident_byte((two_args(g, decimal_digits(l as nat), name_bytes(s)) + t)[0]),
{
    assert(is_gap(g[0]) && is_gap(g[1]) && is_gap(g[2]) && is_gap(g[3]) && is_gap(g[4]));
    let c2 = tok(g[4], seq![41u8]) + t;
    lemma_punct_tok(g[4], 41, t);
    let y = tok(g[3], name_bytes(s)) + c2;
    lemma_name_tok(g[3], s, c2);
    let c1 = tok(g[2], seq![44u8]) + y;
    lemma_punct_tok(g[2], 44, y);
    let x = tok(g[1], decimal_digits(l as nat)) + c1;
    lemma_integer_tok(g[1], l, c1);
    assert(two_args(g, decimal_digits(l as nat), name_bytes(s)) + t =~= tok(g[0], seq![40u8]) + x);
    lemma_punct_tok(g[0], 40, x);
}

proof fn lemma_layer_key(g: Seq<Gap>, l: u64, k: KeyV, t: Seq<u8>)
    requires
        g.len() == 5,
        forall|i: int| 0 <= i < 5 ==> is_gap(#[trigger] g[i]),
        writable(k),
    ensures
        args_layer_key(two_args(g, decimal_digits(l as nat), key_bytes(k)) + t) == Ok::<
            ((u64, KeyV), Seq<u8>),
            ParseError,
        >(((l, k), t)),
        (two_args(g, decimal_digits(l as nat), key_bytes(k)) + t).len() > 0,
        !is_ident_byte((two_args(g, decimal_digits(l as nat), key_bytes(k)) + t)[0]),
{
    assert(is_gap(g[0]) && is_gap(g[1]) && is_gap(g[2]) && is_gap(g[3]) && is_gap(g[4]));
    let c2 = tok(g[4], seq![41u8]) + t;
    lemma_punct_tok(g[4], 41, t);
    let y = tok(g[3], key_bytes(k)) + c2;
    lemma_key_tok(g[3], k, c2);
    let c1 = tok(g[2], seq![44u8]) + y;
    lemma_punct_tok(g[2], 44, y);
    let x = tok(g[1], decimal_digits(l as nat)) + c1;
    lemma_integer_tok(g[1], l, c1);
    assert(two_args(g, decimal_digits(l as nat), key_bytes(k)) + t =~= tok(g[0], seq![40u8]) + x);
    lemma_punct_tok(g[0], 40, x);
}

proof fn lemma_two_keys(g: Seq<Gap>, m: KeyV, k: KeyV, t: Seq<u8>)
    requires
        g.len() == 5,
        forall|i: int| 0 <= i < 5 ==> is_gap(#[trigger] g[i]),
        writable(m),
        writable(k),
    ensures
        args_keys(two_args(g, key_bytes(m), key_bytes(k)) + t) == Ok::<
            ((KeyV, KeyV), Seq<u8>),
            ParseError,
        >(((m, k), t)),
        (two_args(g, key_bytes(m), key_bytes(k)) + t).len() > 0,
        !is_ident_byte((two_args(g, key_bytes(m), key_bytes(k)) + t)[0]),
{
    assert(is_gap(g[0]) && is_gap(g[1]) && is_gap(g[2]) && is_gap(g[3]) && is_gap(g[4]));
    let c2 = tok(g[4], seq![41u8]) + t;
    lemma_punct_tok(g[4], 41, t);
    let y = tok(g[3], key_bytes(k)) + c2;
    lemma_key_tok(g[3], k, c2);
    let c1 = tok(g[2], seq![44u8]) + y;
    lemma_punct_tok(g[2], 44, y);
    let x = tok(g[1], key_bytes(m)) + c1;
    lemma_key_tok(g[1], m, c1);
    assert(two_args(g, key_bytes(m), key_bytes(k)) + t =~= tok(g[0], seq![40u8]) + x);
    lemma_punct_tok(g[0], 40, x);
}

/// The word that names an action: `ACTION_` and its suffix.
pub open spec fn action_word(a: ActionV) -> Seq<u8> {
    "ACTION_".spec_bytes() + suffix_of(a)
}

proof fn lemma_action_word(a: ActionV)
    ensures
        action_word(a).len() > 7,
        forall|m: int| 0 <= m < action_word(a).len() ==> is_ident_byte(#[trigger] action_word(a)[m]),
        starts_with(action_word(a), "ACTION_".spec_bytes()),
        at(action_word(a), 7) == suffix_of(a),
        action_word(a)[0] == 65,
{
    lemma_action_words();
    let p = "ACTION_".spec_bytes();
    let x = suffix_of(a);
    let w = action_word(a);
    assert(x.len() > 0);
    assert forall|m: int| 0 <= m < x.len() implies is_ident_byte(#[trigger] x[m]) by {
        match a {
            ActionV::Function(_) => {},
            ActionV::FunctionTap(_) => {},
            ActionV::LayerMomentary(_) => {},
            ActionV::LayerSet(_, _) => {},
            ActionV::LayerSetClear(_) => {},
            ActionV::LayerToggle(_) => {},
            ActionV::LayerTapToggle(_) => {},
            ActionV::DefaultLayerSet(_) => {},
            ActionV::LayerTapKey(_, _) => {},
            ActionV::ModsKey(_, _) => {},
            ActionV::ModsTapKey(_, _) => {},
        }
    }
    assert forall|m: int| 0 <= m < w.len() implies is_ident_byte(#[trigger] w[m]) by {
        if m < 7 {
            assert(w[m] == p[m]);
        } else {
            assert(w[m] == x[m - 7]);
        }
    }
    assert(w.subrange(0, 7) =~= p);
    assert(at(w, 7) =~= x);
    assert(w[0] == p[0]);
}

proof fn lemma_action_text(gw: Gap, a: ActionV, g: Seq<Gap>, t: Seq<u8>)
    requires
        is_gap(gw),
        g.len() == 5,
        forall|i: int| 0 <= i < 5 ==> is_gap(#[trigger] g[i]),
        writable_action(a),
    ensures
        action(tok(gw, action_word(a)) + (args_text(a, g) + t)) == Ok::<(ActionV, Seq<u8>), ParseError>((a, t)),
{
    let rest = args_text(a, g) + t;
    lemma_args_text(a, g, t);
    lemma_action_word(a);
    let w = action_word(a);
    let v = w + rest;
    assert(tok(gw, w) + rest =~= joined(gw) + v);
    lemma_skip_gap(gw, v);
    assert(v[0] == w[0]);
    lemma_no_skip(v);
    assert forall|m: int| 0 <= m < w.len() implies is_ident_byte(#[trigger] v[m]) by {
        assert(v[m] == w[m]);
    }
    assert(v[w.len() as int] == rest[0]);
    lemma_ident_run(v, w.len() as int);
    assert(v.subrange(0, w.len() as int) =~= w);
    assert(at(v, w.len() as int) =~= rest);
}

proof fn lemma_entry_core(e: EntrySlot, t: Seq<u8>)
    requires
        entry_ok(e),
    ensures
        entry(entry_core(e) + t) == Ok::<((u64, ActionV), Seq<u8>), ParseError>(((e.index, e.action), t)),
        (entry_core(e) + t)[0] == 91,
{
    let x5 = tok(e.word_gap, action_word(e.action)) + (args_text(e.action, e.inner) + t);
    lemma_action_text(e.word_gap, e.action, e.inner, t);
    let x4 = tok(e.eq_gap, seq![61u8]) + x5;
    lemma_punct_tok(e.eq_gap, 61, x5);
    let x3 = tok(e.bracket_gap, seq![93u8]) + x4;
    lemma_punct_tok(e.bracket_gap, 93, x4);
    let x2 = tok(e.index_gap, decimal_digits(e.index as nat)) + x3;
    lemma_integer_tok(e.index_gap, e.index, x3);
    let x1 = seq![91u8] + x2;
    assert(entry_core(e) + t =~= x1);
    lemma_no_skip(x1);
    assert(at(x1, 1) =~= x2);
}

#[verifier::rlimit(80)]
#[verifier::spinoff_prover]
proof fn lemma_entries_text(es: Seq<EntrySlot>, close: Gap, t: Seq<u8>)
    requires
        is_gap(close),
        forall|i: int| 0 <= i < es.len() ==> entry_ok(#[trigger] es[i]),
    ensures
        entry_list(entries_text(es, close) + t) == Ok::<(Seq<(u64, ActionV)>, Seq<u8>), ParseError>((slot_entries(es), t)),
    decreases es.len(),
{
    if es.len() == 0 {
        assert(entries_text(es, close) + t =~= joined(close) + (seq![125u8] + t));
        lemma_skip_gap(close, seq![125u8] + t);
        assert(at(seq![125u8] + t, 1) =~= t);
        assert(slot_entries(es) =~= seq![]);
    } else {
        let e = es[0];
        assert(entry_ok(e));
        let rest = es.subrange(1, es.len() as int);
        let tail = if es.len() == 1 {
            seq![125u8] + t
        } else {
            seq![44u8] + (entries_text(rest, close) + t)
        };
        let after = joined(e.after) + tail;
        assert(entries_text(es, close) + t =~= joined(e.before) + (entry_core(e) + after));
        lemma_entry_core(e, after);
        lemma_skip_gap(e.before, entry_core(e) + after);
        lemma_no_skip(entry_core(e) + after);
        lemma_skip_gap(e.after, tail);
        lemma_no_skip(tail);
        if es.len() == 1 {
            assert(at(tail, 1) =~= t);
            assert(slot_entries(es) =~= seq![(e.index, e.action)]);
        } else {
            assert(at(tail, 1) =~= entries_text(rest, close) + t);
            assert forall|i: int| 0 <= i < rest.len() implies entry_ok(#[trigger] rest[i]) by {
                assert(rest[i] == es[i + 1]);
            }
            lemma_entries_text(rest, close, t);
            assert(slot_entries(es) =~= seq![(e.index, e.action)] + slot_entries(rest));
        }
    }
}

/// An action section parses to its entries whatever whitespace and comments
/// stand between its tokens: each gap may be empty or hold any number of
/// spaces, tabs, line breaks, line comments and block comments.
pub proof fn lemma_action_section_with_gaps(eq: Gap, open: Gap, es: Seq<EntrySlot>, close: Gap, t: Seq<u8>)
    requires
        is_gap(eq),
        is_gap(open),
        is_gap(close),
        forall|i: int| 0 <= i < es.len() ==> entry_ok(#[trigger] es[i]),
    ensures
        actions_section(action_section_text(eq, open, es, close) + t) == Ok::<Seq<(u64, ActionV)>, ParseError>(slot_entries(es)),
{
    crate::laws::lemma_headers_nonempty();
    let h = actions_header();
    let r3 = seq![123u8] + (entries_text(es, close) + t);
    let r2 = seq![61u8] + (joined(open) + r3);
    let rest = joined(eq) + r2;
    let s = action_section_text(eq, open, es, close) + t;
    assert(s =~= h + rest);
    assert(s.subrange(0, h.len() as int) =~= h);
    assert(starts_with(s, h));
    assert(at(s, h.len() as int) =~= rest);
    assert(find_in(s, h, Mode::Code) == Ok::<Seq<u8>, ParseError>(rest));
    lemma_skip_gap(eq, r2);
    lemma_no_skip(r2);
    assert(at(r2, 1) =~= joined(open) + r3);
    lemma_skip_gap(open, r3);
    lemma_no_skip(r3);
    assert(at(r3, 1) =~= entries_text(es, close) + t);
    lemma_entries_text(es, close, t);
}

} // verus!
