//! The executable parsers, each proved to compute its grammar rule.

use crate::grammar::{
    action, action_args, action_table, actions_header, actions_section, args_key, args_keys,
    args_layer, args_layer_key, args_layer_name, document, entry, entry_list, find_in, key_list,
    keymap, keymap_list, keymaps_header, keymaps_section, punct, starts_with,
};
use crate::lexer::{
    agrees, agrees_pos, at, integer, integer_raw_at, key, key_at, key_raw, key_raw_at,
    lemma_at_at, name_at, skip, skip_from, word, ident_span,
};
use crate::types::{
    actions_view, keymap_view, keymaps_view, Action, ActionMap, ActionV, Key, KeyMap, KeyMapVec,
    KeyV, ParseError,
};
use vstd::prelude::*;
use vstd::string::StringSliceAdditionalSpecFns;

verus! {

broadcast use vstd::std_specs::hash::group_hash_axioms;

/// A list result with `acc` put in front of its items.
pub open spec fn prepend<A>(acc: Seq<A>, r: Result<(Seq<A>, Seq<u8>), ParseError>) -> Result<
    (Seq<A>, Seq<u8>),
    ParseError,
> {
    match r {
        Ok((xs, t)) => Ok((acc + xs, t)),
        Err(e) => Err(e),
    }
}

proof fn lemma_prepend_one<A>(acc: Seq<A>, x: A, r: Result<(Seq<A>, Seq<u8>), ParseError>)
    ensures
        prepend(acc, prepend(seq![x], r)) == prepend(acc.push(x), r),
{
    if let Ok((xs, t)) = r {
        assert(acc + (seq![x] + xs) =~= acc.push(x) + xs);
    }
}

/// `p` stands at position `i` of `s`.
fn lit_at(s: &[u8], i: usize, p: &[u8]) -> (r: bool)
    requires
        i <= s@.len(),
    ensures
        r == starts_with(at(s@, i as int), p@),
{
    let n = s.len();
    let m = p.len();
    if n - i < m {
        return false;
    }
    let mut k: usize = 0;
    while k < m
        invariant
            k <= m == p@.len(),
            i + m <= n == s@.len(),
            forall|q: int| 0 <= q < k ==> s@[i + q] == p@[q],
        decreases m - k,
    {
        if s[i + k] != p[k] {
            proof {
                assert(at(s@, i as int).subrange(0, m as int)[k as int] == s@[i + k]);
            }
            return false;
        }
        k = k + 1;
    }
    proof {
        assert(at(s@, i as int).subrange(0, m as int) =~= p@);
    }
    true
}

/// The bytes from `a` to `b` are exactly `p`.
fn span_is(s: &[u8], a: usize, b: usize, p: &[u8]) -> (r: bool)
    requires
        a <= b <= s@.len(),
    ensures
        r == (s@.subrange(a as int, b as int) == p@),
{
    if b - a != p.len() {
        return false;
    }
    let r = lit_at(s, a, p);
    proof {
        assert(at(s@, a as int).subrange(0, p@.len() as int) =~= s@.subrange(a as int, b as int));
    }
    r
}

/// Reads the byte `c` after the insignificant text at `i`.
fn punct_at(s: &[u8], i: usize, c: u8) -> (r: Result<usize, ParseError>)
    requires
        i <= s@.len(),
    ensures
        agrees_pos(s@, punct(at(s@, i as int), c), r),
{
    let j = skip_from(s, i)?;
    proof {
        lemma_at_at(s@, j as int, 0);
    }
    if j < s.len() && s[j] == c {
        proof {
            lemma_at_at(s@, j as int, 1);
        }
        Ok(j + 1)
    } else {
        Err(ParseError::Syntax)
    }
}

/// Reads the integer after the insignificant text at `i`.
fn integer_at(s: &[u8], i: usize) -> (r: Result<(u64, usize), ParseError>)
    requires
        i <= s@.len(),
    ensures
        agrees(s@, integer(at(s@, i as int)), r),
{
    let j = skip_from(s, i)?;
    integer_raw_at(s, j)
}

/// Finds the identifier after the insignificant text at `i`, as the positions it spans.
fn word_at(s: &[u8], i: usize) -> (r: Result<(usize, usize), ParseError>)
    requires
        i <= s@.len(),
    ensures
        match word(at(s@, i as int)) {
            Ok((w, t)) => match r {
                Ok((a, b)) => a <= b <= s@.len() && w == s@.subrange(a as int, b as int) && t == at(
                    s@,
                    b as int,
                ),
                Err(_) => false,
            },
            Err(e) => r == Err::<(usize, usize), ParseError>(e),
        },
        r matches Ok((a, b)) ==> forall|m: int| a <= m < b ==> crate::lexer::is_ident_byte(
            #[trigger] s@[m],
        ),
{
    let j = skip_from(s, i)?;
    let e = ident_span(s, j)?;
    proof {
        assert(at(s@, j as int).subrange(0, e - j) =~= s@.subrange(j as int, e as int));
        lemma_at_at(s@, j as int, e - j);
    }
    Ok((j, e))
}

/// Reads the keys of a `KEYMAP(...)` call that follow its `(` at `i`.
fn key_list_at(s: &[u8], i: usize) -> (r: Result<(KeyMap, usize), ParseError>)
    requires
        i <= s@.len(),
    ensures
        match key_list(at(s@, i as int)) {
            Ok((ks, t)) => match r {
                Ok((km, j)) => keymap_view(km) == ks && j <= s@.len() && t == at(s@, j as int),
                Err(_) => false,
            },
            Err(e) => r == Err::<(KeyMap, usize), ParseError>(e),
        },
{
    let n = s.len();
    let mut keys: KeyMap = Vec::new();
    let mut j = i;
    proof {
        assert(keymap_view(keys) =~= seq![]);
        assert(prepend(seq![], key_list(at(s@, i as int))) == key_list(at(s@, i as int))) by {
            if let Ok((xs, t)) = key_list(at(s@, i as int)) {
                assert(Seq::<KeyV>::empty() + xs =~= xs);
            }
        }
    }
    loop
        invariant
            j <= n == s@.len(),
            key_list(at(s@, i as int)) == prepend(keymap_view(keys), key_list(at(s@, j as int))),
        decreases n - j,
    {
        let ghost acc = keymap_view(keys);
        let j1 = skip_from(s, j)?;
        proof {
            lemma_at_at(s@, j1 as int, 0);
        }
        if j1 < n && s[j1] == 41 {
            proof {
                lemma_at_at(s@, j1 as int, 1);
                assert(acc + seq![] =~= acc);
            }
            return Ok((keys, j1 + 1));
        }
        let (k, j2) = key_raw_at(s, j1)?;
        let j3 = skip_from(s, j2)?;
        proof {
            lemma_at_at(s@, j3 as int, 0);
        }
        if j3 < n && s[j3] == 44 {
            proof {
                lemma_at_at(s@, j3 as int, 1);
                lemma_prepend_one(acc, k@, key_list(at(s@, j3 + 1)));
                crate::lexer::lemma_tokens_shorter(at(s@, j1 as int));
                crate::lexer::lemma_skip_shorter(at(s@, j2 as int), crate::lexer::Mode::Code);
            }
            keys.push(k);
            proof {
                assert(keymap_view(keys) =~= acc.push(k@));
            }
            j = j3 + 1;
        } else if j3 < n && s[j3] == 41 {
            proof {
                lemma_at_at(s@, j3 as int, 1);
            }
            keys.push(k);
            proof {
                assert(keymap_view(keys) =~= acc + seq![k@]);
            }
            return Ok((keys, j3 + 1));
        } else {
            return Err(ParseError::Syntax);
        }
    }
}


/// Reads one `KEYMAP(...)` call after the insignificant text at `i`.
fn keymap_at(s: &[u8], i: usize) -> (r: Result<(KeyMap, usize), ParseError>)
    requires
        i <= s@.len(),
    ensures
        match keymap(at(s@, i as int)) {
            Ok((ks, t)) => match r {
                Ok((km, j)) => keymap_view(km) == ks && j <= s@.len() && t == at(s@, j as int),
                Err(_) => false,
            },
            Err(e) => r == Err::<(KeyMap, usize), ParseError>(e),
        },
{
    let (a, b) = word_at(s, i)?;
    if !span_is(s, a, b, "KEYMAP".as_bytes()) {
        return Err(ParseError::Syntax);
    }
    let j = punct_at(s, b, 40)?;
    key_list_at(s, j)
}

/// Reads the layers of the keymap section that follow its `{` at `i`.
fn keymap_list_at(s: &[u8], i: usize) -> (r: Result<(KeyMapVec, usize), ParseError>)
    requires
        i <= s@.len(),
    ensures
        match keymap_list(at(s@, i as int)) {
            Ok((kms, t)) => match r {
                Ok((kmv, j)) => keymaps_view(kmv) == kms && j <= s@.len() && t == at(s@, j as int),
                Err(_) => false,
            },
            Err(e) => r == Err::<(KeyMapVec, usize), ParseError>(e),
        },
{
    let n = s.len();
    let mut layers: KeyMapVec = Vec::new();
    let mut j = i;
    proof {
        assert(keymaps_view(layers) =~= seq![]);
        assert(prepend(seq![], keymap_list(at(s@, i as int))) == keymap_list(at(s@, i as int)))
            by {
            if let Ok((xs, t)) = keymap_list(at(s@, i as int)) {
                assert(Seq::<Seq<KeyV>>::empty() + xs =~= xs);
            }
        }
    }
    loop
        invariant
            j <= n == s@.len(),
            keymap_list(at(s@, i as int)) == prepend(
                keymaps_view(layers),
                keymap_list(at(s@, j as int)),
            ),
        decreases n - j,
    {
        let ghost acc = keymaps_view(layers);
        let j1 = skip_from(s, j)?;
        proof {
            lemma_at_at(s@, j1 as int, 0);
        }
        if j1 < n && s[j1] == 125 {
            proof {
                lemma_at_at(s@, j1 as int, 1);
                assert(acc + seq![] =~= acc);
            }
            return Ok((layers, j1 + 1));
        }
        let (km, j2) = keymap_at(s, j1)?;
        let ghost kv = keymap_view(km);
        let j3 = skip_from(s, j2)?;
        proof {
            lemma_at_at(s@, j3 as int, 0);
        }
        if j3 < n && s[j3] == 44 {
            proof {
                lemma_at_at(s@, j3 as int, 1);
                lemma_prepend_one(acc, kv, keymap_list(at(s@, j3 + 1)));
                crate::grammar::lemma_keymap_shorter(at(s@, j1 as int));
                crate::lexer::lemma_skip_shorter(at(s@, j2 as int), crate::lexer::Mode::Code);
            }
            layers.push(km);
            proof {
                assert(keymaps_view(layers) =~= acc.push(kv));
            }
            j = j3 + 1;
        } else if j3 < n && s[j3] == 125 {
            proof {
                lemma_at_at(s@, j3 as int, 1);
            }
            layers.push(km);
            proof {
                assert(keymaps_view(layers) =~= acc + seq![kv]);
            }
            return Ok((layers, j3 + 1));
        } else {
            return Err(ParseError::Syntax);
        }
    }
}

/// Reads `( key )` at `i`.
fn args_key_at(s: &[u8], i: usize) -> (r: Result<(Key, usize), ParseError>)
    requires
        i <= s@.len(),
    ensures
        agrees(s@, args_key(at(s@, i as int)), r),
{
    let j = punct_at(s, i, 40)?;
    let (k, j2) = key_at(s, j)?;
    let j3 = punct_at(s, j2, 41)?;
    Ok((k, j3))
}

/// Reads `( layer )` at `i`.
fn args_layer_at(s: &[u8], i: usize) -> (r: Result<(u64, usize), ParseError>)
    requires
        i <= s@.len(),
    ensures
        agrees(s@, args_layer(at(s@, i as int)), r),
{
    let j = punct_at(s, i, 40)?;
    let (l, j2) = integer_at(s, j)?;
    let j3 = punct_at(s, j2, 41)?;
    Ok((l, j3))
}

/// Reads `( layer , identifier )` at `i`.
fn args_layer_name_at(s: &[u8], i: usize) -> (r: Result<((u64, String), usize), ParseError>)
    requires
        i <= s@.len(),
    ensures
        match args_layer_name(at(s@, i as int)) {
            Ok(((l, w), t)) => match r {
                Ok(((l2, w2), j)) => l2 == l && w2@ == crate::lexer::chars_of(w) && j <= s@.len()
                    && t == at(s@, j as int),
                Err(_) => false,
            },
            Err(e) => r == Err::<((u64, String), usize), ParseError>(e),
        },
{
    let j = punct_at(s, i, 40)?;
    let (l, j2) = integer_at(s, j)?;
    let j3 = punct_at(s, j2, 44)?;
    let j4 = skip_from(s, j3)?;
    let (w, j5) = name_at(s, j4)?;
    proof {
        assert(at(s@, j4 as int).subrange(0, j5 - j4) =~= s@.subrange(j4 as int, j5 as int));
        lemma_at_at(s@, j4 as int, j5 - j4);
    }
    let j6 = punct_at(s, j5, 41)?;
    Ok(((l, w), j6))
}

/// Reads `( layer , key )` at `i`.
fn args_layer_key_at(s: &[u8], i: usize) -> (r: Result<((u64, Key), usize), ParseError>)
    requires
        i <= s@.len(),
    ensures
        agrees(s@, args_layer_key(at(s@, i as int)), r),
{
    let j = punct_at(s, i, 40)?;
    let (l, j2) = integer_at(s, j)?;
    let j3 = punct_at(s, j2, 44)?;
    let (k, j4) = key_at(s, j3)?;
    let j5 = punct_at(s, j4, 41)?;
    Ok(((l, k), j5))
}

/// Reads `( key , key )` at `i`.
fn args_keys_at(s: &[u8], i: usize) -> (r: Result<((Key, Key), usize), ParseError>)
    requires
        i <= s@.len(),
    ensures
        agrees(s@, args_keys(at(s@, i as int)), r),
{
    let j = punct_at(s, i, 40)?;
    let (m, j2) = key_at(s, j)?;
    let j3 = punct_at(s, j2, 44)?;
    let (k, j4) = key_at(s, j3)?;
    let j5 = punct_at(s, j4, 41)?;
    Ok(((m, k), j5))
}

/// Reads the arguments of the action whose suffix spans `a` to `b`; they start at `b`.
fn action_args_at(s: &[u8], a: usize, b: usize) -> (r: Result<(Action, usize), ParseError>)
    requires
        a <= b <= s@.len(),
    ensures
        agrees(s@, action_args(s@.subrange(a as int, b as int), at(s@, b as int)), r),
{
    if span_is(s, a, b, "FUNCTION".as_bytes()) {
        let (k, j) = args_key_at(s, b)?;
        Ok((Action::Function(k), j))
    } else if span_is(s, a, b, "FUNCTION_TAP".as_bytes()) {
        let (k, j) = args_key_at(s, b)?;
        Ok((Action::FunctionTap(k), j))
    } else if span_is(s, a, b, "LAYER_MOMENTARY".as_bytes()) {
        let (l, j) = args_layer_at(s, b)?;
        Ok((Action::LayerMomentary(l), j))
    } else if span_is(s, a, b, "LAYER_SET".as_bytes()) {
        let ((l, w), j) = args_layer_name_at(s, b)?;
        Ok((Action::LayerSet(l, w), j))
    } else if span_is(s, a, b, "LAYER_SET_CLEAR".as_bytes()) {
        let (l, j) = args_layer_at(s, b)?;
        Ok((Action::LayerSetClear(l), j))
    } else if span_is(s, a, b, "LAYER_TOGGLE".as_bytes()) {
        let (l, j) = args_layer_at(s, b)?;
        Ok((Action::LayerToggle(l), j))
    } else if span_is(s, a, b, "LAYER_TAP_TOGGLE".as_bytes()) {
        let (l, j) = args_layer_at(s, b)?;
        Ok((Action::LayerTapToggle(l), j))
    } else if span_is(s, a, b, "DEFAULT_LAYER_SET".as_bytes()) {
        let (l, j) = args_layer_at(s, b)?;
        Ok((Action::DefaultLayerSet(l), j))
    } else if span_is(s, a, b, "LAYER_TAP_KEY".as_bytes()) {
        let ((l, k), j) = args_layer_key_at(s, b)?;
        Ok((Action::LayerTapKey(l, k), j))
    } else if span_is(s, a, b, "MODS_KEY".as_bytes()) {
        let ((m, k), j) = args_keys_at(s, b)?;
        Ok((Action::ModsKey(m, k), j))
    } else if span_is(s, a, b, "MODS_TAP_KEY".as_bytes()) {
        let ((m, k), j) = args_keys_at(s, b)?;
        Ok((Action::ModsTapKey(m, k), j))
    } else {
        Err(ParseError::UnknownAction)
    }
}

/// Reads one action call after the insignificant text at `i`.
fn action_at(s: &[u8], i: usize) -> (r: Result<(Action, usize), ParseError>)
    requires
        i <= s@.len(),
    ensures
        agrees(s@, action(at(s@, i as int)), r),
{
    let (a, b) = word_at(s, i)?;
    let p = "ACTION_".as_bytes();
    proof {
        reveal_strlit("ACTION_");
        broadcast use vstd::string::is_ascii_spec_bytes;

        assert(vstd::string::is_ascii("ACTION_"));
        assert(p@.len() == 7);
    }
    if b - a < 7 || !span_is(s, a, a + 7, p) {
        proof {
            if b - a >= 7 {
                assert(s@.subrange(a as int, b as int).subrange(0, 7) =~= s@.subrange(
                    a as int,
                    a + 7,
                ));
            }
        }
        return Err(ParseError::Syntax);
    }
    proof {
        assert(s@.subrange(a as int, b as int).subrange(0, 7) =~= s@.subrange(a as int, a + 7));
        assert(at(s@.subrange(a as int, b as int), 7) =~= s@.subrange(a + 7, b as int));
    }
    action_args_at(s, a + 7, b)
}

/// Reads one entry `[ index ] = action` after the insignificant text at `i`.
fn entry_at(s: &[u8], i: usize) -> (r: Result<((u64, Action), usize), ParseError>)
    requires
        i <= s@.len(),
    ensures
        agrees(s@, entry(at(s@, i as int)), r),
{
    let j = punct_at(s, i, 91)?;
    let (n, j2) = integer_at(s, j)?;
    let j3 = punct_at(s, j2, 93)?;
    let j4 = punct_at(s, j3, 61)?;
    let (a, j5) = action_at(s, j4)?;
    Ok(((n, a), j5))
}

/// Reads the entries of the action section that follow its `{` at `i`, into a table.
fn entry_list_at(s: &[u8], i: usize) -> (r: Result<(ActionMap, usize), ParseError>)
    requires
        i <= s@.len(),
    ensures
        match entry_list(at(s@, i as int)) {
            Ok((es, t)) => match r {
                Ok((m, j)) => actions_view(m) == action_table(es) && j <= s@.len() && t == at(
                    s@,
                    j as int,
                ),
                Err(_) => false,
            },
            Err(e) => r == Err::<(ActionMap, usize), ParseError>(e),
        },
{
    let n = s.len();
    let mut table: ActionMap = ActionMap::new();
    let ghost mut es: Seq<(u64, ActionV)> = seq![];
    let mut j = i;
    proof {
        assert(actions_view(table) =~= action_table(es));
        assert(prepend(seq![], entry_list(at(s@, i as int))) == entry_list(at(s@, i as int))) by {
            if let Ok((xs, t)) = entry_list(at(s@, i as int)) {
                assert(Seq::<(u64, ActionV)>::empty() + xs =~= xs);
            }
        }
    }
    loop
        invariant
            j <= n == s@.len(),
            entry_list(at(s@, i as int)) == prepend(es, entry_list(at(s@, j as int))),
            actions_view(table) == action_table(es),
        decreases n - j,
    {
        let j1 = skip_from(s, j)?;
        proof {
            lemma_at_at(s@, j1 as int, 0);
        }
        if j1 < n && s[j1] == 125 {
            proof {
                lemma_at_at(s@, j1 as int, 1);
                assert(es + seq![] =~= es);
            }
            return Ok((table, j1 + 1));
        }
        let ((idx, a), j2) = entry_at(s, j1)?;
        let ghost en = (idx, a@);
        let j3 = skip_from(s, j2)?;
        proof {
            lemma_at_at(s@, j3 as int, 0);
        }
        let ghost old_view = actions_view(table);
        let last = j3 < n && s[j3] == 125;
        if !(j3 < n && s[j3] == 44) && !last {
            return Err(ParseError::Syntax);
        }
        table.insert(idx, a);
        proof {
            assert(actions_view(table) =~= old_view.insert(en.0, en.1));
            assert(es.push(en).drop_last() =~= es);
            lemma_at_at(s@, j3 as int, 1);
        }
        if last {
            proof {
                es = es.push(en);
                assert(es =~= (es.drop_last() + seq![en]));
            }
            return Ok((table, j3 + 1));
        }
        proof {
            lemma_prepend_one(es, en, entry_list(at(s@, j3 + 1)));
            es = es.push(en);
            crate::grammar::lemma_entry_shorter(at(s@, j1 as int));
            crate::lexer::lemma_skip_shorter(at(s@, j2 as int), crate::lexer::Mode::Code);
        }
        j = j3 + 1;
    }
}

/// Scans from `i` for the header `h`, passing over comments whole, and returns
/// the position just after it.
fn find_at(s: &[u8], i: usize, h: &[u8]) -> (r: Result<usize, ParseError>)
    requires
        i <= s@.len(),
        h@.len() > 0,
    ensures
        agrees_pos(s@, find_in(at(s@, i as int), h@, crate::lexer::Mode::Code), r),
{
    let n = s.len();
    let mut j = i;
    let mut m = crate::lexer::Mode::Code;
    loop
        invariant
            i <= j <= n,
            n == s@.len(),
            h@.len() > 0,
            find_in(at(s@, j as int), h@, m) == find_in(
                at(s@, i as int),
                h@,
                crate::lexer::Mode::Code,
            ),
        decreases n - j,
    {
        proof {
            lemma_at_at(s@, j as int, 0);
            if j + 1 <= n {
                lemma_at_at(s@, j as int, 1);
            }
            if j + 2 <= n {
                lemma_at_at(s@, j as int, 2);
            }
        }
        match m {
            crate::lexer::Mode::Code => {
                if lit_at(s, j, h) {
                    proof {
                        lemma_at_at(s@, j as int, h@.len() as int);
                    }
                    return Ok(j + h.len());
                } else if n - j >= 2 && s[j] == 47 && s[j + 1] == 47 {
                    j = j + 2;
                    m = crate::lexer::Mode::Line;
                } else if n - j >= 2 && s[j] == 47 && s[j + 1] == 42 {
                    j = j + 2;
                    m = crate::lexer::Mode::Block;
                } else if j == n {
                    return Err(ParseError::SectionNotFound);
                } else {
                    j = j + 1;
                }
            },
            crate::lexer::Mode::Line => {
                if j == n {
                    return Err(ParseError::SectionNotFound);
                } else if s[j] == 10 {
                    j = j + 1;
                    m = crate::lexer::Mode::Code;
                } else {
                    j = j + 1;
                }
            },
            crate::lexer::Mode::Block => {
                if n - j < 2 {
                    return Err(ParseError::UnterminatedComment);
                } else if s[j] == 42 && s[j + 1] == 47 {
                    j = j + 2;
                    m = crate::lexer::Mode::Code;
                } else {
                    j = j + 1;
                }
            },
        }
    }
}


/// A rule applied to a whole input: after its value only insignificant text may follow.
pub open spec fn whole<V>(r: Result<(V, Seq<u8>), ParseError>) -> Result<V, ParseError> {
    match r {
        Ok((v, t)) => match skip(t) {
            Ok(u) => if u.len() == 0 {
                Ok(v)
            } else {
                Err(ParseError::Syntax)
            },
            Err(e) => Err(e),
        },
        Err(e) => Err(e),
    }
}

/// `r` is the executable form of the spec result `sr`.
pub open spec fn agrees_value<T: View>(sr: Result<T::V, ParseError>, r: Result<T, ParseError>) -> bool {
    match sr {
        Ok(v) => match r {
            Ok(x) => x@ == v,
            Err(_) => false,
        },
        Err(e) => match r {
            Ok(_) => false,
            Err(e2) => e2 == e,
        },
    }
}

/// Checks that only insignificant text is left from `j` on.
fn at_end(s: &[u8], j: usize) -> (r: Result<(), ParseError>)
    requires
        j <= s@.len(),
    ensures
        match skip(at(s@, j as int)) {
            Ok(u) => if u.len() == 0 {
                r is Ok
            } else {
                r == Err::<(), ParseError>(ParseError::Syntax)
            },
            Err(e) => r == Err::<(), ParseError>(e),
        },
{
    let k = skip_from(s, j)?;
    if k == s.len() {
        Ok(())
    } else {
        Err(ParseError::Syntax)
    }
}

/// The number of bytes of insignificant text (whitespace and comments) at the
/// start of `input`.
pub fn skip_insignificant(input: &str) -> (r: Result<usize, ParseError>)
    ensures
        agrees_pos(input.spec_bytes(), skip(input.spec_bytes()), r),
{
    let s = input.as_bytes();
    proof {
        assert(at(s@, 0) =~= s@);
    }
    skip_from(s, 0)
}

/// Parses an input that holds one integer.
pub fn parse_integer(input: &str) -> (r: Result<u64, ParseError>)
    ensures
        agrees_value(whole(integer(input.spec_bytes())), r),
{
    let s = input.as_bytes();
    proof {
        assert(at(s@, 0) =~= s@);
    }
    let (v, j) = integer_at(s, 0)?;
    at_end(s, j)?;
    Ok(v)
}

/// Parses an input that holds one key.
pub fn parse_key(input: &str) -> (r: Result<Key, ParseError>)
    ensures
        agrees_value(whole(key(input.spec_bytes())), r),
{
    let s = input.as_bytes();
    proof {
        assert(at(s@, 0) =~= s@);
    }
    let (k, j) = key_at(s, 0)?;
    at_end(s, j)?;
    Ok(k)
}

/// Parses an input that holds one `KEYMAP(...)` call.
pub fn parse_keymap(input: &str) -> (r: Result<KeyMap, ParseError>)
    ensures
        match whole(keymap(input.spec_bytes())) {
            Ok(ks) => match r {
                Ok(km) => keymap_view(km) == ks,
                Err(_) => false,
            },
            Err(e) => r == Err::<KeyMap, ParseError>(e),
        },
{
    let s = input.as_bytes();
    proof {
        assert(at(s@, 0) =~= s@);
    }
    let (km, j) = keymap_at(s, 0)?;
    at_end(s, j)?;
    Ok(km)
}

/// Parses an input that holds one action call, such as `ACTION_FUNCTION(TRNS)`.
pub fn parse_action(input: &str) -> (r: Result<Action, ParseError>)
    ensures
        agrees_value(whole(action(input.spec_bytes())), r),
{
    let s = input.as_bytes();
    proof {
        assert(at(s@, 0) =~= s@);
    }
    let (a, j) = action_at(s, 0)?;
    at_end(s, j)?;
    Ok(a)
}

/// Parses an input that holds one action-table entry, such as `[13] = ACTION_FUNCTION(TRNS)`.
pub fn parse_action_definition(input: &str) -> (r: Result<(u64, Action), ParseError>)
    ensures
        agrees_value(whole(entry(input.spec_bytes())), r),
{
    let s = input.as_bytes();
    proof {
        assert(at(s@, 0) =~= s@);
    }
    let (en, j) = entry_at(s, 0)?;
    at_end(s, j)?;
    Ok(en)
}

/// Finds the keymap section anywhere in `input` and parses its layers.
pub fn parse_keymaps(input: &str) -> (r: Result<KeyMapVec, ParseError>)
    ensures
        match keymaps_section(input.spec_bytes()) {
            Ok(kms) => match r {
                Ok(kmv) => keymaps_view(kmv) == kms,
                Err(_) => false,
            },
            Err(e) => r == Err::<KeyMapVec, ParseError>(e),
        },
{
    let s = input.as_bytes();
    proof {
        assert(at(s@, 0) =~= s@);
        reveal_strlit("keymaps[][MATRIX_ROWS][MATRIX_COLS]");
        broadcast use vstd::string::is_ascii_spec_bytes;

        assert(vstd::string::is_ascii("keymaps[][MATRIX_ROWS][MATRIX_COLS]"));
    }
    let h = "keymaps[][MATRIX_ROWS][MATRIX_COLS]".as_bytes();
    let j = find_at(s, 0, h)?;
    let j2 = punct_at(s, j, 61)?;
    let j3 = punct_at(s, j2, 123)?;
    let (kmv, _) = keymap_list_at(s, j3)?;
    Ok(kmv)
}

/// Finds the action section anywhere in `input` and parses its entries into a table.
pub fn parse_actions(input: &str) -> (r: Result<ActionMap, ParseError>)
    ensures
        match actions_section(input.spec_bytes()) {
            Ok(es) => match r {
                Ok(m) => actions_view(m) == action_table(es),
                Err(_) => false,
            },
            Err(e) => r == Err::<ActionMap, ParseError>(e),
        },
{
    let s = input.as_bytes();
    proof {
        assert(at(s@, 0) =~= s@);
        reveal_strlit("fn_actions[]");
        broadcast use vstd::string::is_ascii_spec_bytes;

        assert(vstd::string::is_ascii("fn_actions[]"));
    }
    let h = "fn_actions[]".as_bytes();
    let j = find_at(s, 0, h)?;
    let j2 = punct_at(s, j, 61)?;
    let j3 = punct_at(s, j2, 123)?;
    let (m, _) = entry_list_at(s, j3)?;
    Ok(m)
}

/// Parses a whole firmware source: the layers of its keymap section and the
/// table of its action section. Any failure fails the whole parse.
pub fn parse_string(input: &str) -> (r: Result<(KeyMapVec, ActionMap), ParseError>)
    ensures
        match document(input.spec_bytes()) {
            Ok((kms, table)) => match r {
                Ok((kmv, m)) => keymaps_view(kmv) == kms && actions_view(m) == table,
                Err(_) => false,
            },
            Err(e) => r == Err::<(KeyMapVec, ActionMap), ParseError>(e),
        },
{
    let kmv = parse_keymaps(input)?;
    let m = parse_actions(input)?;
    Ok((kmv, m))
}

} // verus!
