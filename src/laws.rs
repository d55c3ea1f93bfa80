//! Properties that relate several rules of the grammar, or a rule and the
//! printing of its value.

use crate::grammar::{
    action, action_args, action_table, actions_section, args_key, args_keys, args_layer,
    args_layer_key, args_layer_name, document, entry, entry_list, key_list, keymap, keymap_list,
    keymaps_section, punct, find_in, starts_with, keymaps_header, actions_header,
};
use crate::lexer::{
    at, decimal_value, digit_run, integer, integer_raw, is_digit, key_raw, lemma_at_at,
    lemma_decimal_monotone, lemma_digit_run, skip, skip_in, Mode, is_ws, key, word, ident_run,
    lemma_skip_shorter, lemma_tokens_shorter,
};
use crate::parser::whole;
use crate::text::decimal_digits;
use crate::types::{ActionV, KeyV, ParseError};
use vstd::prelude::*;
use vstd::string::StringSliceAdditionalSpecFns;

verus! {

pub proof fn lemma_decimal_digits(n: nat)
    ensures
        decimal_digits(n).len() >= 1,
        forall|i: int| 0 <= i < decimal_digits(n).len() ==> is_digit(#[trigger] decimal_digits(n)[i]),
        decimal_value(decimal_digits(n)) == n,
        n >= 1 ==> decimal_digits(n)[0] != 48,
        n < 10 <==> decimal_digits(n).len() == 1,
    decreases n,
{
    let d = decimal_digits(n);
    if n >= 10 {
        lemma_decimal_digits(n / 10);
        let p = decimal_digits(n / 10);
        assert(d == p.push((n % 10 + 48) as u8));
        assert(d.subrange(0, d.len() - 1) =~= p);
        assert(d[0] == p[0]);
        assert(d.last() == (n % 10 + 48) as u8);
        assert(decimal_value(d) == decimal_value(p) * 10 + (d.last() - 48));
        assert((n / 10) * 10 + n % 10 == n);
    } else {
        assert(d.subrange(0, 0) =~= Seq::<u8>::empty());
        assert(decimal_value(d) == decimal_value(d.subrange(0, 0)) * 10 + (d.last() - 48));
    }
}

/// A canonical numeral (digits, no leading zero unless it is `0`) is the
/// numeral of its own value.
proof fn lemma_canonical_numeral(d: Seq<u8>)
    requires
        d.len() >= 1,
        forall|i: int| 0 <= i < d.len() ==> is_digit(#[trigger] d[i]),
        d.len() > 1 ==> d[0] != 48,
    ensures
        decimal_digits(decimal_value(d)) == d,
    decreases d.len(),
{
    let p = d.subrange(0, d.len() - 1);
    let x = d.last();
    if d.len() == 1 {
        assert(p =~= Seq::<u8>::empty());
        assert(decimal_value(d) == decimal_value(p) * 10 + (x - 48));
        assert(decimal_value(d) == x - 48);
        assert(decimal_digits(decimal_value(d)) =~= d);
    } else {
        assert(forall|i: int| 0 <= i < p.len() ==> #[trigger] p[i] == d[i]);
        lemma_canonical_numeral(p);
        lemma_decimal_monotone(p, 1);
        assert(p.subrange(0, 1).subrange(0, 0) =~= Seq::<u8>::empty());
        let q = p.subrange(0, 1);
        assert(q.subrange(0, 0) =~= Seq::<u8>::empty());
        assert(q.last() == p[0]);
        assert(decimal_value(q) == decimal_value(q.subrange(0, 0)) * 10 + (q.last() - 48));
        let v = decimal_value(p);
        let c = (x - 48) as nat;
        assert(decimal_value(d) == v * 10 + c);
        assert((v * 10 + c) / 10 == v && (v * 10 + c) % 10 == c) by (nonlinear_arith)
            requires
                c < 10,
        ;
        assert(decimal_digits(decimal_value(d)) =~= d);
    }
}

/// Reading an integer and writing its value in decimal gives back exactly the
/// digits that were read.
pub proof fn lemma_integer_reprint(t: Seq<u8>)
    ensures
        integer_raw(t) matches Ok((n, r)) ==> decimal_digits(n as nat) + r == t,
{
    if let Ok((n, r)) = integer_raw(t) {
        let k = digit_run(t);
        crate::lexer::lemma_runs_bounded(t);
        let d = t.subrange(0, k as int);
        assert forall|i: int| 0 <= i < d.len() implies is_digit(#[trigger] d[i]) by {
            digit_prefix(t, i);
        }
        lemma_canonical_numeral(d);
        assert(d + at(t, k as int) =~= t);
    }
}

proof fn digit_prefix(t: Seq<u8>, i: int)
    requires
        0 <= i < digit_run(t),
    ensures
        is_digit(t[i]),
    decreases i,
{
    assert(t.len() > 0 && is_digit(t[0]));
    if i > 0 {
        lemma_at_at(t, 1, 0);
        crate::lexer::lemma_runs_bounded(t);
        digit_prefix(at(t, 1), i - 1);
        assert(at(t, 1)[i - 1] == t[i]);
    }
}

/// Writing a number in decimal and reading it back gives the number.
pub proof fn lemma_integer_round_trip(n: u64)
    ensures
        whole(integer(decimal_digits(n as nat))) == Ok::<u64, ParseError>(n),
{
    let d = decimal_digits(n as nat);
    lemma_decimal_digits(n as nat);
    lemma_digit_run(d, d.len() as int);
    assert(d.subrange(0, d.len() as int) =~= d);
    assert(skip(d) == Ok::<Seq<u8>, ParseError>(d));
    assert(at(d, d.len() as int) =~= Seq::<u8>::empty());
    assert(skip(Seq::<u8>::empty()) == Ok::<Seq<u8>, ParseError>(Seq::<u8>::empty()));
}

/// A functional key written as `FN` and the decimal numeral of its index reads back as itself.
pub proof fn lemma_fn_key_round_trip(n: u64, rest: Seq<u8>)
    requires
        rest.len() == 0 || !is_digit(rest[0]),
    ensures
        key_raw(seq![70u8, 78u8] + decimal_digits(n as nat) + rest) == Ok::<(KeyV, Seq<u8>), ParseError>((KeyV::Fx(n), rest)),
{
    let d = decimal_digits(n as nat);
    let t = seq![70u8, 78u8] + d + rest;
    lemma_decimal_digits(n as nat);
    assert(at(t, 2) =~= d + rest);
    let u = d + rest;
    assert forall|m: int| 0 <= m < d.len() implies is_digit(#[trigger] u[m]) by {
        assert(u[m] == d[m]);
    }
    if rest.len() > 0 {
        assert(u[d.len() as int] == rest[0]);
    }
    lemma_digit_run(u, d.len() as int);
    assert(u.subrange(0, d.len() as int) =~= d);
    assert(at(u, d.len() as int) =~= rest);
    assert(t[2] == d[0]);
}

/// The table that a list of entries defines holds exactly their indices, and
/// maps each index to the action of its last entry.
pub proof fn lemma_last_entry_wins(es: Seq<(u64, ActionV)>, i: int)
    requires
        0 <= i < es.len(),
        forall|j: int| i < j < es.len() ==> (#[trigger] es[j]).0 != es[i].0,
    ensures
        action_table(es).contains_key(es[i].0),
        action_table(es)[es[i].0] == es[i].1,
    decreases es.len(),
{
    if i < es.len() - 1 {
        let p = es.drop_last();
        assert forall|j: int| i < j < p.len() implies (#[trigger] p[j]).0 != p[i].0 by {
            assert(p[j] == es[j]);
        }
        lemma_last_entry_wins(p, i);
        assert(es[es.len() - 1].0 != es[i].0);
    }
}

/// The indices of the table are those of the entries.
pub proof fn lemma_table_indices(es: Seq<(u64, ActionV)>, k: u64)
    ensures
        action_table(es).contains_key(k) <==> exists|j: int| 0 <= j < es.len() && (#[trigger] es[j]).0 == k,
    decreases es.len(),
{
    if es.len() > 0 {
        let p = es.drop_last();
        lemma_table_indices(p, k);
        if exists|j: int| 0 <= j < p.len() && (#[trigger] p[j]).0 == k {
            let j = choose|j: int| 0 <= j < p.len() && (#[trigger] p[j]).0 == k;
            assert(es[j] == p[j]);
        }
        if exists|j: int| 0 <= j < es.len() && (#[trigger] es[j]).0 == k {
            let j = choose|j: int| 0 <= j < es.len() && (#[trigger] es[j]).0 == k;
            if j < es.len() - 1 {
                assert(p[j] == es[j]);
            }
        }
    }
}

/// Failure is total: the document is a value only when both sections are, and
/// otherwise it is the first section's error; no partial layers or table come out.
pub proof fn lemma_failure_is_total(s: Seq<u8>)
    ensures
        document(s) is Ok <==> (keymaps_section(s) is Ok && actions_section(s) is Ok),
        keymaps_section(s) matches Err(e) ==> document(s) == Err::<(Seq<Seq<KeyV>>, Map<u64, ActionV>), ParseError>(e),
        keymaps_section(s) is Ok ==> (actions_section(s) matches Err(e) ==> document(s) == Err::<
            (Seq<Seq<KeyV>>, Map<u64, ActionV>),
            ParseError,
        >(e)),
{
}

/// An action whose suffix names no action is an error, whatever its arguments.
pub proof fn lemma_unknown_suffix(suffix: Seq<u8>, t: Seq<u8>)
    requires
        suffix != "FUNCTION".spec_bytes(),
        suffix != "FUNCTION_TAP".spec_bytes(),
        suffix != "LAYER_MOMENTARY".spec_bytes(),
        suffix != "LAYER_SET".spec_bytes(),
        suffix != "LAYER_SET_CLEAR".spec_bytes(),
        suffix != "LAYER_TOGGLE".spec_bytes(),
        suffix != "LAYER_TAP_TOGGLE".spec_bytes(),
        suffix != "DEFAULT_LAYER_SET".spec_bytes(),
        suffix != "LAYER_TAP_KEY".spec_bytes(),
        suffix != "MODS_KEY".spec_bytes(),
        suffix != "MODS_TAP_KEY".spec_bytes(),
    ensures
        action_args(suffix, t) == Err::<(ActionV, Seq<u8>), ParseError>(ParseError::UnknownAction),
{
}

/// `*/` stands at position `k` of `t`.
pub open spec fn closes_at(t: Seq<u8>, k: int) -> bool {
    t[k] == 42 && t[k + 1] == 47
}

/// A block comment that is never closed is an error, however it is reached.
pub proof fn lemma_unterminated_comment(body: Seq<u8>)
    requires
        forall|k: int| 0 <= k < body.len() - 1 ==> !#[trigger] closes_at(body, k),
    ensures
        skip_in(body, Mode::Block) == Err::<Seq<u8>, ParseError>(ParseError::UnterminatedComment),
    decreases body.len(),
{
    if body.len() >= 2 {
        let r = at(body, 1);
        assert(!closes_at(body, 0));
        assert forall|k: int| 0 <= k < r.len() - 1 implies !#[trigger] closes_at(r, k) by {
            assert(r[k] == body[k + 1] && r[k + 1] == body[k + 2]);
            assert(!closes_at(body, k + 1));
        }
        lemma_unterminated_comment(r);
    }
}

/// A line comment: `//`, bytes other than a line feed, and the line feed that ends it.
pub open spec fn is_line_comment(c: Seq<u8>) -> bool {
    &&& c.len() >= 3
    &&& c[0] == 47 && c[1] == 47
    &&& c.last() == 10
    &&& forall|k: int| 2 <= k < c.len() - 1 ==> #[trigger] c[k] != 10
}

/// A block comment: `/*`, bytes in which `*/` does not stand, and `*/`.
pub open spec fn is_block_comment(c: Seq<u8>) -> bool {
    &&& c.len() >= 4
    &&& c[0] == 47 && c[1] == 42
    &&& c[c.len() - 2] == 42 && c[c.len() - 1] == 47
    &&& forall|k: int| 2 <= k < c.len() - 3 ==> !#[trigger] closes_at(c, k)
}

/// One piece of insignificant text: a whitespace byte or a whole comment.
pub open spec fn is_insignificant(c: Seq<u8>) -> bool {
    (c.len() == 1 && is_ws(c[0])) || is_line_comment(c) || is_block_comment(c)
}

/// Pieces of text written one after the other.
pub open spec fn joined(us: Seq<Seq<u8>>) -> Seq<u8>
    decreases us.len(),
{
    if us.len() == 0 {
        Seq::empty()
    } else {
        us[0] + joined(us.subrange(1, us.len() as int))
    }
}

proof fn lemma_line_body(body: Seq<u8>, t: Seq<u8>)
    requires
        forall|k: int| 0 <= k < body.len() ==> #[trigger] body[k] != 10,
    ensures
        skip_in(body + seq![10u8] + t, Mode::Line) == skip_in(t, Mode::Code),
    decreases body.len(),
{
    let u = body + seq![10u8] + t;
    if body.len() == 0 {
        assert(u[0] == 10);
        assert(at(u, 1) =~= t);
    } else {
        assert(u[0] == body[0]);
        let b2 = at(body, 1);
        assert(at(u, 1) =~= b2 + seq![10u8] + t);
        assert forall|k: int| 0 <= k < b2.len() implies #[trigger] b2[k] != 10 by {
            assert(b2[k] == body[k + 1]);
        }
        lemma_line_body(b2, t);
    }
}

proof fn lemma_block_body(body: Seq<u8>, t: Seq<u8>)
    requires
        forall|k: int| 0 <= k < body.len() - 1 ==> !#[trigger] closes_at(body, k),
    ensures
        skip_in(body + seq![42u8, 47u8] + t, Mode::Block) == skip_in(t, Mode::Code),
    decreases body.len(),
{
    let u = body + seq![42u8, 47u8] + t;
    if body.len() == 0 {
        assert(u[0] == 42 && u[1] == 47);
        assert(at(u, 2) =~= t);
    } else {
        assert(u[0] == body[0]);
        if body.len() >= 2 {
            assert(!closes_at(body, 0));
            assert(u[1] == body[1]);
        } else {
            assert(u[1] == 42);
        }
        let b2 = at(body, 1);
        assert(at(u, 1) =~= b2 + seq![42u8, 47u8] + t);
        assert forall|k: int| 0 <= k < b2.len() - 1 implies !#[trigger] closes_at(b2, k) by {
            assert(b2[k] == body[k + 1] && b2[k + 1] == body[k + 2]);
            assert(!closes_at(body, k + 1));
        }
        lemma_block_body(b2, t);
    }
}

proof fn lemma_skip_piece(c: Seq<u8>, t: Seq<u8>)
    requires
        is_insignificant(c),
    ensures
        skip(c + t) == skip(t),
{
    let u = c + t;
    assert(u[0] == c[0]);
    if c.len() == 1 && is_ws(c[0]) {
        assert(at(u, 1) =~= t);
    } else if is_line_comment(c) {
        assert(u[1] == c[1]);
        let body = c.subrange(2, c.len() - 1);
        assert(at(u, 2) =~= body + seq![10u8] + t);
        assert forall|k: int| 0 <= k < body.len() implies #[trigger] body[k] != 10 by {
            assert(body[k] == c[k + 2]);
        }
        lemma_line_body(body, t);
    } else {
        assert(u[1] == c[1]);
        let body = c.subrange(2, c.len() - 2);
        assert(at(u, 2) =~= body + seq![42u8, 47u8] + t);
        assert forall|k: int| 0 <= k < body.len() - 1 implies !#[trigger] closes_at(body, k) by {
            assert(body[k] == c[k + 2] && body[k + 1] == c[k + 3]);
            assert(!closes_at(c, k + 2));
        }
        lemma_block_body(body, t);
    }
}

proof fn lemma_skip_joined(us: Seq<Seq<u8>>, t: Seq<u8>)
    requires
        forall|i: int| 0 <= i < us.len() ==> is_insignificant(#[trigger] us[i]),
    ensures
        skip(joined(us) + t) == skip(t),
    decreases us.len(),
{
    if us.len() > 0 {
        let rest = us.subrange(1, us.len() as int);
        assert forall|i: int| 0 <= i < rest.len() implies is_insignificant(#[trigger] rest[i]) by {
            assert(rest[i] == us[i + 1]);
        }
        lemma_skip_joined(rest, t);
        assert(joined(us) + t =~= us[0] + (joined(rest) + t));
        lemma_skip_piece(us[0], joined(rest) + t);
    }
}

/// Whitespace and comments in front of a token change nothing: every rule
/// that reads tokens, from a single punctuation byte up to a whole list of
/// layers or of action entries, reads the same values and leaves the same
/// input when insignificant text is put before it. Since the grammar reads
/// every token through one of these rules, comments between any two tokens of
/// a section do not change what the section means.
pub proof fn lemma_comments_between_tokens(us: Seq<Seq<u8>>, t: Seq<u8>)
    requires
        forall|i: int| 0 <= i < us.len() ==> is_insignificant(#[trigger] us[i]),
    ensures
        skip(joined(us) + t) == skip(t),
        forall|c: u8| #[trigger] punct(joined(us) + t, c) == punct(t, c),
        integer(joined(us) + t) == integer(t),
        word(joined(us) + t) == word(t),
        key(joined(us) + t) == key(t),
        key_list(joined(us) + t) == key_list(t),
        keymap(joined(us) + t) == keymap(t),
        keymap_list(joined(us) + t) == keymap_list(t),
        args_key(joined(us) + t) == args_key(t),
        args_layer(joined(us) + t) == args_layer(t),
        args_layer_name(joined(us) + t) == args_layer_name(t),
        args_layer_key(joined(us) + t) == args_layer_key(t),
        args_keys(joined(us) + t) == args_keys(t),
        action(joined(us) + t) == action(t),
        entry(joined(us) + t) == entry(t),
        entry_list(joined(us) + t) == entry_list(t),
{
    lemma_skip_joined(us, t);
}

/// The mode the header search is in after scanning all of `t` from mode `m`.
pub open spec fn scan_mode(t: Seq<u8>, m: Mode) -> Mode
    decreases t.len(),
{
    if t.len() == 0 {
        m
    } else {
        match m {
            Mode::Code => if t.len() >= 2 && t[0] == 47 && t[1] == 47 {
                scan_mode(at(t, 2), Mode::Line)
            } else if t.len() >= 2 && t[0] == 47 && t[1] == 42 {
                scan_mode(at(t, 2), Mode::Block)
            } else {
                scan_mode(at(t, 1), Mode::Code)
            },
            Mode::Line => if t[0] == 10 {
                scan_mode(at(t, 1), Mode::Code)
            } else {
                scan_mode(at(t, 1), Mode::Line)
            },
            Mode::Block => if t.len() >= 2 && t[0] == 42 && t[1] == 47 {
                scan_mode(at(t, 2), Mode::Code)
            } else {
                scan_mode(at(t, 1), Mode::Block)
            },
        }
    }
}

/// `j` ends with a slash and `t` starts with a slash or a star, so that the
/// two together would open a comment.
pub open spec fn marker_across(j: Seq<u8>, t: Seq<u8>) -> bool {
    j.len() > 0 && t.len() > 0 && j.last() == 47 && (t[0] == 47 || t[0] == 42)
}

/// `j` is text that can stand before `t` without changing a search for `h`:
/// no occurrence of `h` starts inside it, every comment it opens is closed,
/// and no comment marker is formed across the boundary.
pub open spec fn unrelated_text(j: Seq<u8>, t: Seq<u8>, h: Seq<u8>) -> bool {
    &&& forall|k: int| 0 <= k < j.len() ==> !#[trigger] starts_with(at(j + t, k), h)
    &&& !marker_across(j, t)
    &&& scan_mode(j, Mode::Code) == Mode::Code
}

/// The mode after one step of the scanner from mode `m` on `t`, and the
/// number of bytes that step takes.
pub open spec fn scan_step(t: Seq<u8>, m: Mode) -> (Mode, int) {
    match m {
        Mode::Code => if t.len() >= 2 && t[0] == 47 && t[1] == 47 {
            (Mode::Line, 2)
        } else if t.len() >= 2 && t[0] == 47 && t[1] == 42 {
            (Mode::Block, 2)
        } else {
            (Mode::Code, 1)
        },
        Mode::Line => if t[0] == 10 {
            (Mode::Code, 1)
        } else {
            (Mode::Line, 1)
        },
        Mode::Block => if t.len() >= 2 && t[0] == 42 && t[1] == 47 {
            (Mode::Code, 2)
        } else {
            (Mode::Block, 1)
        },
    }
}

proof fn lemma_find_after(j: Seq<u8>, t: Seq<u8>, h: Seq<u8>, m: Mode)
    requires
        h.len() > 0,
        forall|k: int| 0 <= k < j.len() ==> !#[trigger] starts_with(at(j + t, k), h),
        !marker_across(j, t),
        scan_mode(j, m) == Mode::Code,
    ensures
        find_in(j + t, h, m) == find_in(t, h, Mode::Code),
    decreases j.len(),
{
    let u = j + t;
    if j.len() == 0 {
        assert(u =~= t);
    } else {
        assert(u[0] == j[0]);
        assert(at(u, 0) =~= u);
        assert(!starts_with(at(u, 0), h));
        if j.len() >= 2 {
            assert(u[1] == j[1]);
        }
        if j.len() == 1 && t.len() > 0 {
            assert(u[1] == t[0]);
        }
        let (m2, step) = scan_step(j, m);
        assert(scan_mode(j, m) == scan_mode(at(j, step), m2));
        let j2 = at(j, step);
        assert(at(u, step) =~= j2 + t);
        assert forall|k: int| 0 <= k < j2.len() implies !#[trigger] starts_with(at(j2 + t, k), h) by {
            assert(at(j2 + t, k) =~= at(u, k + step));
        }
        if j2.len() > 0 {
            assert(j2.last() == j.last());
        }
        lemma_find_after(j2, t, h, m2);
    }
}

pub proof fn lemma_headers_nonempty()
    ensures
        keymaps_header().len() == 35,
        actions_header().len() == 12,
{
    reveal_strlit("keymaps[][MATRIX_ROWS][MATRIX_COLS]");
    reveal_strlit("fn_actions[]");
    broadcast use vstd::string::is_ascii_spec_bytes;

    assert(vstd::string::is_ascii("keymaps[][MATRIX_ROWS][MATRIX_COLS]"));
    assert(vstd::string::is_ascii("fn_actions[]"));
}

/// Unrelated text before a section, which holds no occurrence of the
/// section's header and leaves no comment open, does not change what the
/// section parses to.
pub proof fn lemma_text_before_section(j: Seq<u8>, t: Seq<u8>)
    ensures
        unrelated_text(j, t, keymaps_header()) ==> keymaps_section(j + t) == keymaps_section(t),
        unrelated_text(j, t, actions_header()) ==> actions_section(j + t) == actions_section(t),
{
    lemma_headers_nonempty();
    if unrelated_text(j, t, keymaps_header()) {
        lemma_find_after(j, t, keymaps_header(), Mode::Code);
    }
    if unrelated_text(j, t, actions_header()) {
        lemma_find_after(j, t, actions_header(), Mode::Code);
    }
}

/// Skipping stops where no more insignificant text starts, so skipping again changes nothing.
proof fn lemma_skip_stops(t: Seq<u8>, m: Mode)
    ensures
        skip_in(t, m) matches Ok(r) ==> skip(r) == Ok::<Seq<u8>, ParseError>(r),
    decreases t.len(),
{
    match m {
        Mode::Code => {
            if t.len() > 0 && is_ws(t[0]) {
                lemma_skip_stops(at(t, 1), Mode::Code);
            } else if t.len() >= 2 && t[0] == 47 && t[1] == 47 {
                lemma_skip_stops(at(t, 2), Mode::Line);
            } else if t.len() >= 2 && t[0] == 47 && t[1] == 42 {
                lemma_skip_stops(at(t, 2), Mode::Block);
            }
        },
        Mode::Line => {
            if t.len() > 0 {
                lemma_skip_stops(at(t, 1), Mode::Code);
                lemma_skip_stops(at(t, 1), Mode::Line);
            }
        },
        Mode::Block => {
            if t.len() >= 2 {
                lemma_skip_stops(at(t, 2), Mode::Code);
                lemma_skip_stops(at(t, 1), Mode::Block);
            }
        },
    }
}

proof fn ext_skip(t: Seq<u8>, u: Seq<u8>, m: Mode)
    ensures
        skip_in(t, m) matches Ok(r) ==> (r.len() > 0 && r[0] != 47 ==> skip_in(t + u, m) == Ok::<
            Seq<u8>,
            ParseError,
        >(r + u)),
    decreases t.len(),
{
    let v = t + u;
    if t.len() > 0 {
        assert(v[0] == t[0]);
        assert(at(v, 1) =~= at(t, 1) + u);
    }
    if t.len() > 1 {
        assert(v[1] == t[1]);
        assert(at(v, 2) =~= at(t, 2) + u);
    }
    match m {
        Mode::Code => {
            if t.len() > 0 && is_ws(t[0]) {
                ext_skip(at(t, 1), u, Mode::Code);
            } else if t.len() >= 2 && t[0] == 47 && t[1] == 47 {
                ext_skip(at(t, 2), u, Mode::Line);
            } else if t.len() >= 2 && t[0] == 47 && t[1] == 42 {
                ext_skip(at(t, 2), u, Mode::Block);
            }
        },
        Mode::Line => {
            if t.len() > 0 {
                ext_skip(at(t, 1), u, Mode::Code);
                ext_skip(at(t, 1), u, Mode::Line);
            }
        },
        Mode::Block => {
            if t.len() >= 2 {
                ext_skip(at(t, 2), u, Mode::Code);
                ext_skip(at(t, 1), u, Mode::Block);
            }
        },
    }
}

proof fn ext_runs(t: Seq<u8>, u: Seq<u8>)
    ensures
        digit_run(t) < t.len() ==> digit_run(t + u) == digit_run(t),
        ident_run(t) < t.len() ==> ident_run(t + u) == ident_run(t),
    decreases t.len(),
{
    if t.len() > 0 {
        assert((t + u)[0] == t[0]);
        assert(at(t + u, 1) =~= at(t, 1) + u);
        ext_runs(at(t, 1), u);
    }
}

proof fn ext_raw(t: Seq<u8>, u: Seq<u8>)
    ensures
        integer_raw(t) matches Ok((n, r)) ==> (r.len() > 0 ==> integer_raw(t + u) == Ok::<
            (u64, Seq<u8>),
            ParseError,
        >((n, r + u))),
        key_raw(t) matches Ok((k, r)) ==> (r.len() > 0 ==> key_raw(t + u) == Ok::<
            (KeyV, Seq<u8>),
            ParseError,
        >((k, r + u))),
        (ident_run(t) > 0 && ident_run(t) < t.len()) ==> (ident_run(t + u) == ident_run(t) && (t
            + u).subrange(0, ident_run(t) as int) == t.subrange(0, ident_run(t) as int) && at(
            t + u,
            ident_run(t) as int,
        ) == at(t, ident_run(t) as int) + u),
{
    let v = t + u;
    crate::lexer::lemma_runs_bounded(t);
    ext_runs(t, u);
    if t.len() > 0 {
        assert(v[0] == t[0]);
    }
    if t.len() > 1 {
        assert(v[1] == t[1]);
    }
    if t.len() > 2 {
        assert(v[2] == t[2]);
        ext_runs(at(t, 2), u);
        crate::lexer::lemma_runs_bounded(at(t, 2));
        assert(at(v, 2) =~= at(t, 2) + u);
        let w = at(t, 2);
        let k: int = digit_run(w) as int;
        assert((w + u).subrange(0, k as int) =~= w.subrange(0, k as int));
        assert(at(w + u, k as int) =~= at(w, k as int) + u);
        if w.len() > 0 {
            assert((w + u)[0] == w[0]);
        }
    }
    let k = digit_run(t);
    assert(v.subrange(0, k as int) =~= t.subrange(0, k as int));
    assert(at(v, k as int) =~= at(t, k as int) + u);
    let i = ident_run(t);
    assert(v.subrange(0, i as int) =~= t.subrange(0, i as int));
    assert(at(v, i as int) =~= at(t, i as int) + u);
    if t.len() <= 2 && key_raw(t) is Ok {
        if t.len() == 2 && t[0] == 70 && t[1] == 78 {
            ext_runs(at(t, 1), u);
            assert(ident_run(t) == 2);
        }
    }
}

proof fn ext_tokens(t: Seq<u8>, u: Seq<u8>)
    ensures
        integer(t) matches Ok((n, r)) ==> (r.len() > 0 ==> integer(t + u) == Ok::<
            (u64, Seq<u8>),
            ParseError,
        >((n, r + u))),
        key(t) matches Ok((k, r)) ==> (r.len() > 0 ==> key(t + u) == Ok::<(KeyV, Seq<u8>), ParseError>(
            (k, r + u),
        )),
        word(t) matches Ok((w, r)) ==> (r.len() > 0 ==> word(t + u) == Ok::<
            (Seq<u8>, Seq<u8>),
            ParseError,
        >((w, r + u))),
{
    ext_skip(t, u, Mode::Code);
    if let Ok(r0) = skip(t) {
        ext_raw(r0, u);
        lemma_tokens_shorter(r0);
        crate::lexer::lemma_runs_bounded(r0);
    }
}

proof fn ext_punct(t: Seq<u8>, u: Seq<u8>, c: u8)
    requires
        c != 47,
    ensures
        punct(t, c) matches Ok(r) ==> punct(t + u, c) == Ok::<Seq<u8>, ParseError>(r + u),
        punct(t, c) is Ok ==> t.len() > 0,
{
    ext_skip(t, u, Mode::Code);
    lemma_skip_shorter(t, Mode::Code);
    if let Ok(r0) = skip(t) {
        if r0.len() > 0 {
            assert(at(r0 + u, 1) =~= at(r0, 1) + u);
            assert((r0 + u)[0] == r0[0]);
        }
    }
}

proof fn ext_key_list(t: Seq<u8>, u: Seq<u8>)
    ensures
        key_list(t) matches Ok((ks, r)) ==> key_list(t + u) == Ok::<(Seq<KeyV>, Seq<u8>), ParseError>(
            (ks, r + u),
        ),
    decreases t.len(),
{
    ext_skip(t, u, Mode::Code);
    lemma_skip_shorter(t, Mode::Code);
    if let Ok(r0) = skip(t) {
        if r0.len() > 0 {
            assert((r0 + u)[0] == r0[0]);
            assert(at(r0 + u, 1) =~= at(r0, 1) + u);
        }
        ext_raw(r0, u);
        lemma_tokens_shorter(r0);
        if let Ok((k, r2)) = key_raw(r0) {
            ext_skip(r2, u, Mode::Code);
            lemma_skip_shorter(r2, Mode::Code);
            if let Ok(r3) = skip(r2) {
                if r3.len() > 0 {
                    assert((r3 + u)[0] == r3[0]);
                    assert(at(r3 + u, 1) =~= at(r3, 1) + u);
                    if r3[0] == 44 {
                        ext_key_list(at(r3, 1), u);
                    }
                }
            }
        }
    }
}

proof fn ext_keymap(t: Seq<u8>, u: Seq<u8>)
    ensures
        keymap(t) matches Ok((ks, r)) ==> keymap(t + u) == Ok::<(Seq<KeyV>, Seq<u8>), ParseError>(
            (ks, r + u),
        ),
{
    ext_tokens(t, u);
    if let Ok((w, r)) = word(t) {
        ext_punct(r, u, 40);
        if let Ok(r2) = punct(r, 40) {
            ext_key_list(r2, u);
        }
    }
}

proof fn ext_keymap_list(t: Seq<u8>, u: Seq<u8>)
    ensures
        keymap_list(t) matches Ok((kms, r)) ==> keymap_list(t + u) == Ok::<
            (Seq<Seq<KeyV>>, Seq<u8>),
            ParseError,
        >((kms, r + u)),
    decreases t.len(),
{
    ext_skip(t, u, Mode::Code);
    lemma_skip_shorter(t, Mode::Code);
    if let Ok(r0) = skip(t) {
        if r0.len() > 0 {
            assert((r0 + u)[0] == r0[0]);
            assert(at(r0 + u, 1) =~= at(r0, 1) + u);
        }
        lemma_skip_stops(t, Mode::Code);
        crate::lexer::lemma_runs_bounded(r0);
        if r0.len() > 0 && r0[0] != 125 {
            ext_keymap(r0, u);
            crate::grammar::lemma_keymap_shorter(r0);
            lemma_tokens_shorter(r0);
            if let Ok((km, r2)) = keymap(r0) {
                ext_skip(r2, u, Mode::Code);
                lemma_skip_shorter(r2, Mode::Code);
                if let Ok(r3) = skip(r2) {
                    if r3.len() > 0 {
                        assert((r3 + u)[0] == r3[0]);
                        assert(at(r3 + u, 1) =~= at(r3, 1) + u);
                        if r3[0] == 44 {
                            ext_keymap_list(at(r3, 1), u);
                        }
                    }
                }
            }
        }
    }
}

proof fn ext_args(t: Seq<u8>, u: Seq<u8>)
    ensures
        args_key(t) matches Ok((v, r)) ==> args_key(t + u) == Ok::<(KeyV, Seq<u8>), ParseError>(
            (v, r + u),
        ),
        args_layer(t) matches Ok((v, r)) ==> args_layer(t + u) == Ok::<(u64, Seq<u8>), ParseError>(
            (v, r + u),
        ),
        args_layer_name(t) matches Ok((v, r)) ==> args_layer_name(t + u) == Ok::<
            ((u64, Seq<u8>), Seq<u8>),
            ParseError,
        >((v, r + u)),
        args_layer_key(t) matches Ok((v, r)) ==> args_layer_key(t + u) == Ok::<
            ((u64, KeyV), Seq<u8>),
            ParseError,
        >((v, r + u)),
        args_keys(t) matches Ok((v, r)) ==> args_keys(t + u) == Ok::<
            ((KeyV, KeyV), Seq<u8>),
            ParseError,
        >((v, r + u)),
        args_key(t) is Ok || args_layer(t) is Ok || args_layer_name(t) is Ok || args_layer_key(
            t,
        ) is Ok || args_keys(t) is Ok ==> t.len() > 0,
{
    ext_punct(t, u, 40);
    if let Ok(r) = punct(t, 40) {
        ext_tokens(r, u);
        if let Ok((_, r2)) = key(r) {
            ext_punct(r2, u, 41);
            ext_punct(r2, u, 44);
            if let Ok(r3) = punct(r2, 44) {
                ext_tokens(r3, u);
                if let Ok((_, r4)) = key(r3) {
                    ext_punct(r4, u, 41);
                }
            }
        }
        if let Ok((_, r2)) = integer(r) {
            ext_punct(r2, u, 41);
            ext_punct(r2, u, 44);
            if let Ok(r3) = punct(r2, 44) {
                ext_tokens(r3, u);
                if let Ok((_, r4)) = key(r3) {
                    ext_punct(r4, u, 41);
                }
                if let Ok((_, r4)) = word(r3) {
                    ext_punct(r4, u, 41);
                }
            }
        }
    }
}

proof fn ext_action(t: Seq<u8>, u: Seq<u8>)
    ensures
        action(t) matches Ok((a, r)) ==> action(t + u) == Ok::<(ActionV, Seq<u8>), ParseError>(
            (a, r + u),
        ),
{
    ext_tokens(t, u);
    if let Ok((w, r)) = word(t) {
        ext_args(r, u);
    }
}

proof fn ext_entry(t: Seq<u8>, u: Seq<u8>)
    ensures
        entry(t) matches Ok((en, r)) ==> entry(t + u) == Ok::<((u64, ActionV), Seq<u8>), ParseError>(
            (en, r + u),
        ),
{
    ext_punct(t, u, 91);
    if let Ok(r) = punct(t, 91) {
        ext_tokens(r, u);
        if let Ok((_, r2)) = integer(r) {
            ext_punct(r2, u, 93);
            if let Ok(r3) = punct(r2, 93) {
                ext_punct(r3, u, 61);
                if let Ok(r4) = punct(r3, 61) {
                    ext_action(r4, u);
                }
            }
        }
    }
}

proof fn ext_entry_list(t: Seq<u8>, u: Seq<u8>)
    ensures
        entry_list(t) matches Ok((es, r)) ==> entry_list(t + u) == Ok::<
            (Seq<(u64, ActionV)>, Seq<u8>),
            ParseError,
        >((es, r + u)),
    decreases t.len(),
{
    ext_skip(t, u, Mode::Code);
    lemma_skip_shorter(t, Mode::Code);
    if let Ok(r0) = skip(t) {
        lemma_skip_stops(t, Mode::Code);
        if r0.len() > 0 {
            assert((r0 + u)[0] == r0[0]);
            assert(at(r0 + u, 1) =~= at(r0, 1) + u);
        }
        if r0.len() > 0 && r0[0] != 125 {
            ext_entry(r0, u);
            crate::grammar::lemma_entry_shorter(r0);
            if let Ok((en, r2)) = entry(r0) {
                ext_skip(r2, u, Mode::Code);
                lemma_skip_shorter(r2, Mode::Code);
                if let Ok(r3) = skip(r2) {
                    if r3.len() > 0 {
                        assert((r3 + u)[0] == r3[0]);
                        assert(at(r3 + u, 1) =~= at(r3, 1) + u);
                        if r3[0] == 44 {
                            ext_entry_list(at(r3, 1), u);
                        }
                    }
                }
            }
        }
    }
}

proof fn lemma_find_len(t: Seq<u8>, h: Seq<u8>, m: Mode)
    ensures
        find_in(t, h, m) matches Ok(r) ==> r.len() + h.len() <= t.len(),
    decreases t.len(),
{
    if t.len() > 0 {
        lemma_find_len(at(t, 1), h, Mode::Code);
        lemma_find_len(at(t, 1), h, Mode::Line);
        lemma_find_len(at(t, 1), h, Mode::Block);
    }
    if t.len() > 1 {
        lemma_find_len(at(t, 2), h, Mode::Code);
        lemma_find_len(at(t, 2), h, Mode::Line);
        lemma_find_len(at(t, 2), h, Mode::Block);
    }
}

proof fn ext_find(t: Seq<u8>, u: Seq<u8>, h: Seq<u8>, m: Mode)
    requires
        h.len() > 0,
    ensures
        find_in(t, h, m) matches Ok(r) ==> find_in(t + u, h, m) == Ok::<Seq<u8>, ParseError>(r + u),
    decreases t.len(),
{
    let v = t + u;
    lemma_find_len(t, h, m);
    if t.len() > 0 {
        assert(v[0] == t[0]);
        assert(at(v, 1) =~= at(t, 1) + u);
        ext_find(at(t, 1), u, h, Mode::Code);
        ext_find(at(t, 1), u, h, Mode::Line);
        ext_find(at(t, 1), u, h, Mode::Block);
        lemma_find_len(at(t, 1), h, Mode::Code);
    }
    if t.len() > 1 {
        assert(v[1] == t[1]);
        assert(at(v, 2) =~= at(t, 2) + u);
        ext_find(at(t, 2), u, h, Mode::Code);
        ext_find(at(t, 2), u, h, Mode::Line);
        ext_find(at(t, 2), u, h, Mode::Block);
        lemma_find_len(at(t, 2), h, Mode::Line);
        lemma_find_len(at(t, 2), h, Mode::Block);
    }
    if t.len() >= h.len() {
        assert(v.subrange(0, h.len() as int) =~= t.subrange(0, h.len() as int));
        assert(at(v, h.len() as int) =~= at(t, h.len() as int) + u);
    }
}

/// Text after a section that parses does not change what it parses to.
pub proof fn lemma_text_after_section(t: Seq<u8>, u: Seq<u8>)
    ensures
        keymaps_section(t) is Ok ==> keymaps_section(t + u) == keymaps_section(t),
        actions_section(t) is Ok ==> actions_section(t + u) == actions_section(t),
{
    lemma_headers_nonempty();
    ext_find(t, u, keymaps_header(), Mode::Code);
    if let Ok(r) = find_in(t, keymaps_header(), Mode::Code) {
        ext_punct(r, u, 61);
        if let Ok(r2) = punct(r, 61) {
            ext_punct(r2, u, 123);
            if let Ok(r3) = punct(r2, 123) {
                ext_keymap_list(r3, u);
            }
        }
    }
    ext_find(t, u, actions_header(), Mode::Code);
    if let Ok(r) = find_in(t, actions_header(), Mode::Code) {
        ext_punct(r, u, 61);
        if let Ok(r2) = punct(r, 61) {
            ext_punct(r2, u, 123);
            if let Ok(r3) = punct(r2, 123) {
                ext_entry_list(r3, u);
            }
        }
    }
}

/// Unrelated text before, between and after the two sections does not change
/// the parsed document, provided it holds no occurrence of a header and
/// leaves no comment open. `a` is the keymap section and `b` the action
/// section; the action search passes over `a`, so `a` must not hold the action
/// header either.
pub proof fn lemma_surrounding_text(
    j1: Seq<u8>,
    a: Seq<u8>,
    j2: Seq<u8>,
    b: Seq<u8>,
    j3: Seq<u8>,
)
    requires
        keymaps_section(a) is Ok,
        actions_section(b) is Ok,
        unrelated_text(j1, a + j2 + b + j3, keymaps_header()),
        unrelated_text(j1 + a + j2, b + j3, actions_header()),
        unrelated_text(a, b, actions_header()),
    ensures
        document(j1 + a + j2 + b + j3) == document(a + b),
{
    let s = j1 + a + j2 + b + j3;
    assert(s =~= j1 + (a + j2 + b + j3));
    lemma_text_before_section(j1, a + j2 + b + j3);
    assert(a + j2 + b + j3 =~= a + (j2 + b + j3));
    lemma_text_after_section(a, j2 + b + j3);
    lemma_text_after_section(a, b);
    assert(s =~= (j1 + a + j2) + (b + j3));
    lemma_text_before_section(j1 + a + j2, b + j3);
    lemma_text_after_section(b, j3);
    lemma_text_before_section(a, b);
}

/// `r` is what is left of `t` after some of its first bytes.
pub open spec fn is_rest_of(r: Seq<u8>, t: Seq<u8>) -> bool {
    r.len() <= t.len() && r == at(t, t.len() - r.len())
}

proof fn rest_trans(r: Seq<u8>, s: Seq<u8>, t: Seq<u8>)
    requires
        is_rest_of(r, s),
        is_rest_of(s, t),
    ensures
        is_rest_of(r, t),
{
    assert(r =~= at(t, t.len() - r.len()));
}

proof fn rest_at(t: Seq<u8>, k: int)
    requires
        0 <= k <= t.len(),
    ensures
        is_rest_of(at(t, k), t),
{
    assert(at(t, k) =~= at(t, t.len() - at(t, k).len()));
}

proof fn rest_skip(t: Seq<u8>, m: Mode)
    ensures
        skip_in(t, m) matches Ok(r) ==> is_rest_of(r, t),
    decreases t.len(),
{
    rest_at(t, 0);
    assert(at(t, 0) =~= t);
    let step: int = if t.len() >= 2 && ((m == Mode::Code && t[0] == 47 && (t[1] == 47 || t[1]
        == 42)) || (m == Mode::Block && t[0] == 42 && t[1] == 47)) {
        2
    } else {
        1
    };
    if t.len() >= step {
        rest_at(t, step);
        rest_skip(at(t, step), Mode::Code);
        rest_skip(at(t, step), Mode::Line);
        rest_skip(at(t, step), Mode::Block);
        if let Ok(r) = skip_in(at(t, step), Mode::Code) {
            rest_trans(r, at(t, step), t);
        }
        if let Ok(r) = skip_in(at(t, step), Mode::Line) {
            rest_trans(r, at(t, step), t);
        }
        if let Ok(r) = skip_in(at(t, step), Mode::Block) {
            rest_trans(r, at(t, step), t);
        }
    }
}

proof fn rest_tokens(t: Seq<u8>)
    ensures
        key_raw(t) matches Ok((_, r)) ==> is_rest_of(r, t),
        key(t) matches Ok((_, r)) ==> is_rest_of(r, t),
        word(t) matches Ok((_, r)) ==> is_rest_of(r, t),
        forall|c: u8| #[trigger] punct(t, c) matches Ok(r) ==> is_rest_of(r, t),
{
    crate::lexer::lemma_runs_bounded(t);
    rest_skip(t, Mode::Code);
    if t.len() >= 2 {
        crate::lexer::lemma_runs_bounded(at(t, 2));
        let w = at(t, 2);
        let k: int = digit_run(w) as int;
        assert(at(w, k) =~= at(t, 2 + k));
        rest_at(t, 2 + k);
    }
    rest_at(t, ident_run(t) as int);
    if let Ok(r0) = skip(t) {
        crate::lexer::lemma_runs_bounded(r0);
        rest_at(r0, ident_run(r0) as int);
        rest_trans(at(r0, ident_run(r0) as int), r0, t);
        if r0.len() > 0 {
            rest_at(r0, 1);
            rest_trans(at(r0, 1), r0, t);
        }
        if r0.len() >= 2 {
            crate::lexer::lemma_runs_bounded(at(r0, 2));
            let w = at(r0, 2);
            let k: int = digit_run(w) as int;
            assert(at(w, k) =~= at(r0, 2 + k));
            rest_at(r0, 2 + k);
            rest_trans(at(r0, 2 + k), r0, t);
        }
    }
}

proof fn rest_key_list(t: Seq<u8>)
    ensures
        key_list(t) matches Ok((_, r)) ==> is_rest_of(r, t),
    decreases t.len(),
{
    rest_skip(t, Mode::Code);
    lemma_skip_shorter(t, Mode::Code);
    if let Ok(r0) = skip(t) {
        rest_tokens(r0);
        lemma_tokens_shorter(r0);
        if r0.len() > 0 {
            rest_at(r0, 1);
            rest_trans(at(r0, 1), r0, t);
        }
        if let Ok((_, r2)) = key_raw(r0) {
            rest_trans(r2, r0, t);
            rest_skip(r2, Mode::Code);
            lemma_skip_shorter(r2, Mode::Code);
            if let Ok(r3) = skip(r2) {
                rest_trans(r3, r2, t);
                if r3.len() > 0 {
                    rest_at(r3, 1);
                    rest_trans(at(r3, 1), r3, t);
                    rest_key_list(at(r3, 1));
                    if let Ok((_, r4)) = key_list(at(r3, 1)) {
                        rest_trans(r4, at(r3, 1), t);
                    }
                }
            }
        }
    }
}

proof fn rest_keymap(t: Seq<u8>)
    ensures
        keymap(t) matches Ok((_, r)) ==> is_rest_of(r, t),
{
    rest_tokens(t);
    if let Ok((_, r)) = word(t) {
        rest_tokens(r);
        if let Ok(r2) = punct(r, 40) {
            rest_trans(r2, r, t);
            rest_key_list(r2);
            if let Ok((_, r3)) = key_list(r2) {
                rest_trans(r3, r2, t);
            }
        }
    }
}

proof fn rest_args(t: Seq<u8>)
    ensures
        args_key(t) matches Ok((_, r)) ==> is_rest_of(r, t),
        args_layer(t) matches Ok((_, r)) ==> is_rest_of(r, t),
        args_layer_name(t) matches Ok((_, r)) ==> is_rest_of(r, t),
        args_layer_key(t) matches Ok((_, r)) ==> is_rest_of(r, t),
        args_keys(t) matches Ok((_, r)) ==> is_rest_of(r, t),
{
    rest_tokens(t);
    if let Ok(r) = punct(t, 40) {
        rest_tokens(r);
        if let Ok((_, r2)) = key(r) {
            rest_trans(r2, r, t);
            rest_tokens(r2);
            if let Ok(r3) = punct(r2, 41) {
                rest_trans(r3, r2, t);
            }
            if let Ok(r3) = punct(r2, 44) {
                rest_trans(r3, r2, t);
                rest_tokens(r3);
                if let Ok((_, r4)) = key(r3) {
                    rest_trans(r4, r3, t);
                    rest_tokens(r4);
                    if let Ok(r5) = punct(r4, 41) {
                        rest_trans(r5, r4, t);
                    }
                }
            }
        }
        crate::lexer::lemma_tokens_shorter(r);
        if let Ok((_, r2)) = integer(r) {
            rest_integer(r);
            rest_trans(r2, r, t);
            rest_tokens(r2);
            if let Ok(r3) = punct(r2, 41) {
                rest_trans(r3, r2, t);
            }
            if let Ok(r3) = punct(r2, 44) {
                rest_trans(r3, r2, t);
                rest_tokens(r3);
                if let Ok((_, r4)) = key(r3) {
                    rest_trans(r4, r3, t);
                    rest_tokens(r4);
                    if let Ok(r5) = punct(r4, 41) {
                        rest_trans(r5, r4, t);
                    }
                }
                if let Ok((_, r4)) = word(r3) {
                    rest_trans(r4, r3, t);
                    rest_tokens(r4);
                    if let Ok(r5) = punct(r4, 41) {
                        rest_trans(r5, r4, t);
                    }
                }
            }
        }
    }
}

proof fn rest_integer(t: Seq<u8>)
    ensures
        integer(t) matches Ok((_, r)) ==> is_rest_of(r, t),
{
    rest_skip(t, Mode::Code);
    if let Ok(r0) = skip(t) {
        crate::lexer::lemma_runs_bounded(r0);
        rest_at(r0, digit_run(r0) as int);
        rest_trans(at(r0, digit_run(r0) as int), r0, t);
    }
}

proof fn rest_action(t: Seq<u8>)
    ensures
        action(t) matches Ok((_, r)) ==> is_rest_of(r, t),
{
    rest_tokens(t);
    if let Ok((w, r)) = word(t) {
        rest_args(r);
        if let Ok((_, r2)) = action_args(crate::lexer::at(w, 7), r) {
            rest_trans(r2, r, t);
        }
    }
}

proof fn rest_entry(t: Seq<u8>)
    ensures
        entry(t) matches Ok((_, r)) ==> is_rest_of(r, t),
{
    rest_tokens(t);
    if let Ok(r) = punct(t, 91) {
        rest_integer(r);
        if let Ok((_, r2)) = integer(r) {
            rest_trans(r2, r, t);
            rest_tokens(r2);
            if let Ok(r3) = punct(r2, 93) {
                rest_trans(r3, r2, t);
                rest_tokens(r3);
                if let Ok(r4) = punct(r3, 61) {
                    rest_trans(r4, r3, t);
                    rest_action(r4);
                    if let Ok((_, r5)) = action(r4) {
                        rest_trans(r5, r4, t);
                    }
                }
            }
        }
    }
}

/// A list of layers ends with its closing brace: when it parses, the byte
/// just before what is left is `}`. A section whose closing brace is missing
/// therefore fails.
pub proof fn lemma_layers_end_with_brace(t: Seq<u8>)
    ensures
        keymap_list(t) matches Ok((_, r)) ==> is_rest_of(r, t) && r.len() < t.len() && t[t.len() - r.len() - 1] == 125,
    decreases t.len(),
{
    rest_skip(t, Mode::Code);
    lemma_skip_shorter(t, Mode::Code);
    if let Ok(r0) = skip(t) {
        if r0.len() > 0 {
            rest_at(r0, 1);
            rest_trans(at(r0, 1), r0, t);
            assert(r0[0] == t[t.len() - r0.len()]);
        }
        rest_keymap(r0);
        crate::grammar::lemma_keymap_shorter(r0);
        if let Ok((_, r2)) = keymap(r0) {
            rest_trans(r2, r0, t);
            rest_skip(r2, Mode::Code);
            lemma_skip_shorter(r2, Mode::Code);
            if let Ok(r3) = skip(r2) {
                rest_trans(r3, r2, t);
                if r3.len() > 0 {
                    assert(r3[0] == t[t.len() - r3.len()]);
                    rest_at(r3, 1);
                    rest_trans(at(r3, 1), r3, t);
                    lemma_layers_end_with_brace(at(r3, 1));
                    if let Ok((_, r4)) = keymap_list(at(r3, 1)) {
                        rest_trans(r4, at(r3, 1), t);
                        let a = at(r3, 1);
                        assert(a[a.len() - r4.len() - 1] == t[t.len() - r4.len() - 1]);
                    }
                }
            }
        }
    }
}

/// A list of action entries ends with its closing brace: when it parses, the
/// byte just before what is left is `}`. A section whose closing brace is
/// missing therefore fails.
pub proof fn lemma_entries_end_with_brace(t: Seq<u8>)
    ensures
        entry_list(t) matches Ok((_, r)) ==> is_rest_of(r, t) && r.len() < t.len() && t[t.len() - r.len() - 1] == 125,
    decreases t.len(),
{
    rest_skip(t, Mode::Code);
    lemma_skip_shorter(t, Mode::Code);
    if let Ok(r0) = skip(t) {
        if r0.len() > 0 {
            rest_at(r0, 1);
            rest_trans(at(r0, 1), r0, t);
            assert(r0[0] == t[t.len() - r0.len()]);
        }
        rest_entry(r0);
        crate::grammar::lemma_entry_shorter(r0);
        if let Ok((_, r2)) = entry(r0) {
            rest_trans(r2, r0, t);
            rest_skip(r2, Mode::Code);
            lemma_skip_shorter(r2, Mode::Code);
            if let Ok(r3) = skip(r2) {
                rest_trans(r3, r2, t);
                if r3.len() > 0 {
                    assert(r3[0] == t[t.len() - r3.len()]);
                    rest_at(r3, 1);
                    rest_trans(at(r3, 1), r3, t);
                    lemma_entries_end_with_brace(at(r3, 1));
                    if let Ok((_, r4)) = entry_list(at(r3, 1)) {
                        rest_trans(r4, at(r3, 1), t);
                        let a = at(r3, 1);
                        assert(a[a.len() - r4.len() - 1] == t[t.len() - r4.len() - 1]);
                    }
                }
            }
        }
    }
}

} // verus!
