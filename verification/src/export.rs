//! The argument handling of the `export` special builtin: validating
//! variable names and splitting `name=value` arguments.  Reading and
//! writing the shell's variable environment, and printing the exported
//! set, belong to the surrounding shell runtime.

use crate::lexer::{find_char, is_name_char, lemma_find_char_props, name_run_end, spec_is_name_char,
    spec_is_name_start};
use crate::text::{chars_of, string_of_range};
use vstd::prelude::*;

verus! {

/// The `export` special builtin.
#[derive(Debug, Clone, Copy, PartialEq, Eq, Structural)]
pub struct Export;

/// A portable shell variable name: non-empty, starting with a letter or
/// underscore, continuing with letters, digits and underscores.
pub open spec fn spec_is_valid_name(s: Seq<char>) -> bool {
    &&& s.len() > 0
    &&& spec_is_name_start(s[0])
    &&& forall|k: int| 0 <= k < s.len() ==> spec_is_name_char(#[trigger] s[k])
}

/// Check a candidate variable name.
pub fn is_valid_name(name: &str) -> (r: bool)
    ensures
        r == spec_is_valid_name(name@),
{
    let chars = chars_of(name);
    let n = chars.len();
    if n == 0 {
        return false;
    }
    let c0 = chars[0];
    if !(c0 == '_' || ('a' <= c0 && c0 <= 'z') || ('A' <= c0 && c0 <= 'Z')) {
        return false;
    }
    let mut i: usize = 0;
    while i < n
        invariant
            i <= n,
            n == chars@.len(),
            chars@ == name@,
            forall|k: int| 0 <= k < i ==> spec_is_name_char(#[trigger] name@[k]),
        decreases n - i,
    {
        if !is_name_char(chars[i]) {
            return false;
        }
        i = i + 1;
    }
    true
}

impl Export {
    /// Split one `export` argument: `name=value` yields the name and the
    /// value, a bare word yields the name alone; an invalid name is
    /// rejected.  The contract pins the split exactly at the first `=`.
    pub fn parse_arg(arg: &str) -> (r: Result<(String, Option<String>), ()>)
        ensures
            ({
                let e = find_char(arg@, '=', 0);
                let name_part = if e < arg@.len() {
                    arg@.subrange(0, e)
                } else {
                    arg@
                };
                &&& (!spec_is_valid_name(name_part) ==> r is Err)
                &&& (spec_is_valid_name(name_part) && e < arg@.len() ==> (r matches Ok(p) ==> {
                    &&& p.0@ == name_part
                    &&& p.1 matches Some(v) && v@ == arg@.subrange(e + 1, arg@.len() as int)
                }))
                &&& (spec_is_valid_name(name_part) && e < arg@.len() ==> r is Ok)
                &&& (spec_is_valid_name(name_part) && e >= arg@.len() ==> (r matches Ok(p) && p.0@
                    == arg@ && p.1 is None))
            }),
    {
        let chars = chars_of(arg);
        let n = chars.len();
        let mut e: usize = 0;
        while e < n && chars[e] != '='
            invariant
                e <= n,
                n == chars@.len(),
                chars@ == arg@,
                find_char(arg@, '=', 0) == find_char(arg@, '=', e as int),
            decreases n - e,
        {
            e = e + 1;
        }
        proof {
            assert(find_char(arg@, '=', 0) == e as int);
        }
        if e < n {
            let name = string_of_range(&chars, 0, e);
            if !is_valid_name(name.as_str()) {
                return Err(());
            }
            let value = string_of_range(&chars, e + 1, n);
            Ok((name, Some(value)))
        } else {
            let name = string_of_range(&chars, 0, n);
            proof {
                assert(name@ =~= arg@);
            }
            if !is_valid_name(name.as_str()) {
                return Err(());
            }
            Ok((name, None))
        }
    }
}

} // verus!
