//! Input classification for the minimal interactive shell: a raw line is
//! split on whitespace and becomes a change-directory request, an exit
//! request, a command to execute, or nothing at all.

use crate::edcmd::{is_space, spec_is_space};
use crate::text::{chars_of, string_of_range};
use vstd::prelude::*;
use vstd::string::StringExecFns;

verus! {

/// What one line of shell input asks for.
#[derive(Debug, PartialEq)]
pub enum Input {
    /// `cd`, with its target (empty when none was given).
    ChangeDir(String),
    /// Any other command word, with its arguments.
    Exec(String, Vec<String>),
    Exit,
    NoOp,
}

/// First position at or after `i` holding a non-whitespace character.
pub open spec fn ws_skip(s: Seq<char>, i: int) -> int
    decreases s.len() - i,
{
    if 0 <= i < s.len() && spec_is_space(s[i]) {
        ws_skip(s, i + 1)
    } else {
        i
    }
}

/// First position at or after `i` holding whitespace, or the length.
pub open spec fn tok_end(s: Seq<char>, i: int) -> int
    decreases s.len() - i,
{
    if 0 <= i < s.len() && !spec_is_space(s[i]) {
        tok_end(s, i + 1)
    } else {
        i
    }
}

/// Split the raw line on whitespace and classify the first word: `cd`
/// changes directory to the second word (empty when absent), `exit` stops,
/// an empty line does nothing, and anything else is a command with the
/// remaining words as arguments.
pub fn parse_input(rawline: &str) -> (r: Input)
    ensures
        ({
            let s = rawline@;
            let a = ws_skip(s, 0);
            let b = tok_end(s, a);
            let first = s.subrange(a, b);
            &&& (a >= s.len() ==> r == Input::NoOp)
            &&& (a < s.len() ==> {
                &&& (first == "exit"@ ==> r == Input::Exit)
                &&& (first == "cd"@ ==> (r matches Input::ChangeDir(d) && {
                    let a2 = ws_skip(s, b);
                    &&& (a2 >= s.len() ==> d@.len() == 0)
                    &&& (a2 < s.len() ==> d@ == s.subrange(a2, tok_end(s, a2)))
                }))
                &&& (first != "exit"@ && first != "cd"@ ==> (r matches Input::Exec(cmd, argv)
                    && cmd@ == first && {
                    let a2 = ws_skip(s, b);
                    &&& (a2 >= s.len() ==> argv@.len() == 0)
                    &&& (a2 < s.len() ==> argv@.len() >= 1 && argv@[0]@ == s.subrange(
                        a2,
                        tok_end(s, a2),
                    ))
                }))
            })
        }),
{
    let ghost s = rawline@;
    let chars = chars_of(rawline);
    let n = chars.len();
    let mut i: usize = 0;
    let ghost a0 = ws_skip(s, 0);
    let ghost b0 = tok_end(s, a0);
    while i < n && is_space(chars[i])
        invariant
            i <= n,
            n == chars@.len(),
            chars@ == s,
            s == rawline@,
            ws_skip(s, 0) == ws_skip(s, i as int),
        decreases n - i,
    {
        i = i + 1;
    }
    proof {
        assert(a0 == i as int);
    }
    if i >= n {
        return Input::NoOp;
    }
    // The first word.
    let start = i;
    while i < n && !is_space(chars[i])
        invariant
            start <= i <= n,
            n == chars@.len(),
            chars@ == s,
            s == rawline@,
            tok_end(s, start as int) == tok_end(s, i as int),
        decreases n - i,
    {
        i = i + 1;
    }
    proof {
        assert(b0 == i as int);
    }
    let command = string_of_range(&chars, start, i);
    // The remaining words.
    let ghost first_gap = i as int;
    let mut args: Vec<String> = Vec::new();
    let mut seen_any_arg = false;
    let ghost a2 = ws_skip(s, b0);
    while i < n
        invariant
            start <= i <= n,
            n == chars@.len(),
            chars@ == s,
            s == rawline@,
            first_gap <= i as int,
            a2 == ws_skip(s, b0),
            b0 <= first_gap,
            !seen_any_arg ==> args@.len() == 0 && ws_skip(s, b0) == ws_skip(s, i as int),
            seen_any_arg ==> args@.len() > 0 && a2 < s.len() && args@[0]@ == s.subrange(
                a2,
                tok_end(s, a2),
            ),
        decreases n - i,
    {
        if is_space(chars[i]) {
            i = i + 1;
        } else {
            let wstart = i;
            let mut j = i;
            while j < n && !is_space(chars[j])
                invariant
                    wstart <= j <= n,
                    n == chars@.len(),
                    chars@ == s,
                    s == rawline@,
                    tok_end(s, wstart as int) == tok_end(s, j as int),
                decreases n - j,
            {
                j = j + 1;
            }
            let word = string_of_range(&chars, wstart, j);
            let ghost pre = args@;
            args.push(word);
            proof {
                assert(args@.drop_last() =~= pre);
                if !seen_any_arg {
                    assert(ws_skip(s, i as int) == i as int);
                    assert(tok_end(s, wstart as int) == j as int);
                }
            }
            seen_any_arg = true;
            i = j;
        }
    }
    // Classify the first word.
    proof {
        reveal_strlit("cd");
        reveal_strlit("exit");
        assert("exit"@.len() == 4);
        assert("cd"@.len() == 2);
        assert(command@ == s.subrange(ws_skip(s, 0), tok_end(s, ws_skip(s, 0))));
    }
    if command == String::from_str("cd") {
        if args.len() == 0 {
            Input::ChangeDir(String::new())
        } else {
            let dir = args.remove(0);
            Input::ChangeDir(dir)
        }
    } else if command == String::from_str("exit") {
        Input::Exit
    } else {
        Input::Exec(command, args)
    }
}

} // verus!
