use vstd::prelude::*;

use crate::text::{
    chars_of, find_spec, find_sub, lower_chars, lower_spec, split_ws_spec, split_ws_str, subvec,
    trim_bounds, trim_spec,
};

verus! {

// The uninstall command parser: splits a raw uninstall string into a
// program path and its arguments, handling quoted paths and the common
// malformed registry value of an unquoted path with spaces, recovered at
// the ".exe" extension marker.

/// What `parse_uninstall_command` returns for a raw command, over the
/// trimmed input `c`:
/// - a command starting with a quote, with a closing quote, splits into the
///   text between the quotes and the whitespace-separated words after the
///   closing quote;
/// - else, a command containing ".exe" (case-insensitively) splits right
///   after the first such marker;
/// - else, the first whitespace-separated word is the program and the rest
///   are the arguments; an empty command gives an empty program.
pub open spec fn parse_cmd_spec(raw: Seq<char>) -> (Seq<char>, Seq<Seq<char>>) {
    let c = trim_spec(raw);
    if c.len() > 0 && c[0] == '"' && find_spec(c.skip(1), seq!['"']) is Some {
        let e = find_spec(c.skip(1), seq!['"'])->0;
        (c.subrange(1, 1 + e), split_ws_spec(c.skip(e + 2)))
    } else if find_spec(lower_spec(c), ".exe"@) is Some {
        let p = find_spec(lower_spec(c), ".exe"@)->0;
        (c.subrange(0, p + 4), split_ws_spec(c.skip(p + 4)))
    } else {
        let parts = split_ws_spec(c);
        if parts.len() == 0 {
            (c, Seq::empty())
        } else {
            (parts[0], parts.drop_first())
        }
    }
}

/// Splits a raw uninstall command into the program and its arguments.
#[verifier::loop_isolation(false)]
pub fn parse_uninstall_command(cmd: &str) -> (r: (String, Vec<String>))
    ensures
        r.0@ == parse_cmd_spec(cmd@).0,
        r.1.deep_view() == parse_cmd_spec(cmd@).1,
{
    let v = chars_of(cmd);
    let (a, b) = trim_bounds(&v);
    let ghost c = trim_spec(cmd@);
    proof {
        assert(c == v@.subrange(a as int, b as int));
    }
    let quote: char = '"';

    // a quoted path: the program is the text between the first two quotes
    if b > a && v[a] == quote {
        let t1 = subvec(&v, a + 1, b);
        let mut qv: Vec<char> = Vec::new();
        qv.push(quote);
        proof {
            assert(qv@ =~= seq!['"']);
            assert(t1@ =~= c.skip(1));
        }
        match find_sub(&t1, &qv) {
            Some(e) => {
                proof {
                    crate::text::lemma_find_spec(t1@, qv@);
                    assert(e + 1 <= t1@.len());
                }
                let program = String::from_str(cmd.substring_char(a + 1, a + 1 + e));
                let rest = cmd.substring_char(a + 2 + e, b);
                proof {
                    assert(program@ =~= c.subrange(1, 1 + e));
                    assert(rest@ =~= c.skip(e + 2));
                }
                let args = split_ws_str(rest);
                return (program, args);
            },
            None => {},
        }
    }

    // an unquoted path: recover at the first ".exe" marker, case-insensitively
    let t = subvec(&v, a, b);
    let tl = lower_chars(&t);
    let exe = chars_of(".exe");
    proof {
        assert(t@ =~= c);
        reveal_strlit(".exe");
    }
    match find_sub(&tl, &exe) {
        Some(p) => {
            proof {
                crate::text::lemma_find_spec(tl@, exe@);
                assert(p + 4 <= tl@.len());
                assert(tl@.len() == c.len());
            }
            let program = String::from_str(cmd.substring_char(a, a + p + 4));
            let rest = cmd.substring_char(a + p + 4, b);
            proof {
                assert(p + 4 <= c.len()) by {
                    crate::text::lemma_find_spec(lower_spec(c), ".exe"@);
                }
                assert(program@ =~= c.subrange(0, p + 4));
                assert(rest@ =~= c.skip(p + 4));
            }
            let args = split_ws_str(rest);
            return (program, args);
        },
        None => {},
    }

    // plain whitespace split
    let trimmed = cmd.substring_char(a, b);
    proof {
        assert(trimmed@ =~= c);
    }
    let mut parts = split_ws_str(trimmed);
    if parts.len() == 0 {
        (String::from_str(trimmed), Vec::new())
    } else {
        let ghost old_parts = parts.deep_view();
        let program = parts.remove(0);
        proof {
            assert(parts.deep_view() =~~= old_parts.drop_first());
        }
        (program, parts)
    }
}

} // verus!
