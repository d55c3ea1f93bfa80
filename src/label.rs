//! The two legends printed on a named key: the character it types, and the
//! one it types with shift. The `KC_` and `MOD_` prefixes of firmware names are
//! dropped first; names without a legend of their own show as they are.

use vstd::prelude::*;

verus! {

/// `s` with every occurrence of `p` removed, scanning left to right.
pub open spec fn remove_all(s: Seq<char>, p: Seq<char>) -> Seq<char>
    decreases s.len(),
{
    if s.len() == 0 {
        s
    } else if p.len() > 0 && p.len() <= s.len() && s.subrange(0, p.len() as int) == p {
        remove_all(s.subrange(p.len() as int, s.len() as int), p)
    } else {
        seq![s[0]] + remove_all(s.subrange(1, s.len() as int), p)
    }
}

/// The name, the normal legend and the shifted legend of each key that has legends of its own.
pub open spec fn legend_rows() -> Seq<(Seq<char>, Seq<char>, Seq<char>)> {
    seq![
        ("NO"@, ""@, ""@),
        ("EQL"@, "="@, "+"@),
        ("RGHT"@, "→"@, ""@),
        ("LEFT"@, "←"@, ""@),
        ("UP"@, "↑"@, ""@),
        ("DOWN"@, "↓"@, ""@),
        ("COMM"@, ","@, "<"@),
        ("DOT"@, "."@, ">"@),
        ("QUOT"@, "'"@, "\""@),
        ("MINS"@, "-"@, "_"@),
        ("BSLS"@, "\\"@, "|"@),
        ("SLSH"@, "/"@, "?"@),
        ("GRV"@, "`"@, "~"@),
        ("SCLN"@, ";"@, ":"@),
        ("ENT"@, "⏎"@, ""@),
        ("PENT"@, "⏎"@, ""@),
        ("LBRC"@, "["@, "{"@),
        ("RBRC"@, "]"@, "}"@),
        ("SPC"@, "␣"@, ""@),
        ("0"@, "0"@, ")"@),
        ("1"@, "1"@, "!"@),
        ("2"@, "2"@, "@"@),
        ("3"@, "3"@, "#"@),
        ("4"@, "4"@, "$"@),
        ("5"@, "5"@, "%"@),
        ("6"@, "6"@, "^"@),
        ("7"@, "7"@, "&"@),
        ("8"@, "8"@, "*"@),
        ("9"@, "9"@, "("@),
    ]
}

/// The legends of the first row named `t`, or `t` itself with no shifted legend.
pub open spec fn lookup(rows: Seq<(Seq<char>, Seq<char>, Seq<char>)>, t: Seq<char>) -> (Seq<char>, Seq<char>)
    decreases rows.len(),
{
    if rows.len() == 0 {
        (t, Seq::empty())
    } else if rows[0].0 == t {
        (rows[0].1, rows[0].2)
    } else {
        lookup(rows.subrange(1, rows.len() as int), t)
    }
}

/// The normal and the shifted legend of a key name.
pub open spec fn legends(name: Seq<char>) -> (Seq<char>, Seq<char>) {
    lookup(legend_rows(), remove_all(remove_all(name, "KC_"@), "MOD_"@))
}

/// `s` with every occurrence of `p` removed.
fn remove_all_exec(s: &str, p: &str) -> (r: String)
    ensures
        r@ == remove_all(s@, p@),
{
    let n = s.unicode_len();
    let m = p.unicode_len();
    let pat = String::from_str(p);
    let mut out = String::new();
    let mut seg: usize = 0;
    let mut i: usize = 0;
    proof {
        assert(s@.subrange(0, n as int) =~= s@);
        assert(out@ + s@.subrange(0, 0) =~= Seq::<char>::empty());
    }
    while i < n
        invariant
            seg <= i <= n == s@.len(),
            m == p@.len(),
            pat@ == p@,
            out@ + s@.subrange(seg as int, i as int) + remove_all(s@.subrange(i as int, n as int), p@)
                == remove_all(s@, p@),
        decreases n - i,
    {
        let ghost rest = s@.subrange(i as int, n as int);
        if m > 0 && n - i >= m && String::from_str(s.substring_char(i, i + m)) == pat {
            proof {
                assert(rest.subrange(0, m as int) =~= s@.subrange(i as int, i + m));
                assert(rest.subrange(m as int, rest.len() as int) =~= s@.subrange(i + m, n as int));
            }
            let ghost before = out@;
            out.append(s.substring_char(seg, i));
            proof {
                assert(s@.subrange(i + m, i + m) =~= Seq::<char>::empty());
                assert(out@ + s@.subrange(i + m, i + m) =~= before + s@.subrange(seg as int, i as int));
            }
            i = i + m;
            seg = i;
        } else {
            proof {
                if m > 0 && n - i >= m {
                    assert(rest.subrange(0, m as int) =~= s@.subrange(i as int, i + m));
                }
                assert(rest.subrange(1, rest.len() as int) =~= s@.subrange(i + 1, n as int));
                assert(s@.subrange(seg as int, i + 1) =~= s@.subrange(seg as int, i as int) + seq![
                    rest[0],
                ]);
                assert(out@ + s@.subrange(seg as int, i + 1) + remove_all(
                    s@.subrange(i + 1, n as int),
                    p@,
                ) =~= out@ + s@.subrange(seg as int, i as int) + (seq![rest[0]] + remove_all(
                    s@.subrange(i + 1, n as int),
                    p@,
                )));
            }
            i = i + 1;
        }
    }
    out.append(s.substring_char(seg, n));
    proof {
        assert(s@.subrange(n as int, n as int) =~= Seq::<char>::empty());
    }
    out
}

/// The table of legends, in the order of `legend_rows`.
fn legend_table() -> (r: Vec<(&'static str, &'static str, &'static str)>)
    ensures
        r@.map_values(|row: (&str, &str, &str)| (row.0@, row.1@, row.2@)) == legend_rows(),
{
    let r = vec![
        ("NO", "", ""),
        ("EQL", "=", "+"),
        ("RGHT", "→", ""),
        ("LEFT", "←", ""),
        ("UP", "↑", ""),
        ("DOWN", "↓", ""),
        ("COMM", ",", "<"),
        ("DOT", ".", ">"),
        ("QUOT", "'", "\""),
        ("MINS", "-", "_"),
        ("BSLS", "\\", "|"),
        ("SLSH", "/", "?"),
        ("GRV", "`", "~"),
        ("SCLN", ";", ":"),
        ("ENT", "⏎", ""),
        ("PENT", "⏎", ""),
        ("LBRC", "[", "{"),
        ("RBRC", "]", "}"),
        ("SPC", "␣", ""),
        ("0", "0", ")"),
        ("1", "1", "!"),
        ("2", "2", "@"),
        ("3", "3", "#"),
        ("4", "4", "$"),
        ("5", "5", "%"),
        ("6", "6", "^"),
        ("7", "7", "&"),
        ("8", "8", "*"),
        ("9", "9", "("),
    ];
    proof {
        assert(r@.map_values(|row: (&str, &str, &str)| (row.0@, row.1@, row.2@)) =~= legend_rows());
    }
    r
}

/// The normal and the shifted legend of a key name.
pub fn textoutput(name: &str) -> (r: (String, String))
    ensures
        (r.0@, r.1@) == legends(name@),
{
    let a = remove_all_exec(name, "KC_");
    let t = remove_all_exec(a.as_str(), "MOD_");
    let rows = legend_table();
    let ghost spec_rows = legend_rows();
    let mut i: usize = 0;
    proof {
        assert(spec_rows.subrange(0, spec_rows.len() as int) =~= spec_rows);
    }
    while i < rows.len()
        invariant
            i <= rows@.len() == spec_rows.len(),
            spec_rows == legend_rows(),
            rows@.map_values(|row: (&str, &str, &str)| (row.0@, row.1@, row.2@)) == spec_rows,
            lookup(spec_rows.subrange(i as int, spec_rows.len() as int), t@) == legends(name@),
        decreases rows@.len() - i,
    {
        let row = rows[i];
        proof {
            assert(spec_rows[i as int] == (row.0@, row.1@, row.2@));
            let tail = spec_rows.subrange(i as int, spec_rows.len() as int);
            assert(tail[0] == spec_rows[i as int]);
            assert(tail.subrange(1, tail.len() as int) =~= spec_rows.subrange(
                i + 1,
                spec_rows.len() as int,
            ));
        }
        if String::from_str(row.0) == t {
            return (String::from_str(row.1), String::from_str(row.2));
        }
        i = i + 1;
    }
    (t, String::new())
}

} // verus!
