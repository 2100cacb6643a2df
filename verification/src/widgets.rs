//! Commands that widgets run on events.

use vstd::prelude::*;
use crate::text::{chars_of, decimal, push_decimal, replace_all, replace_chars, string_of};

verus! {

/// The placeholder `{i}` that refers to argument `i`.
pub open spec fn placeholder(i: nat) -> Seq<char> {
    seq!['{'] + decimal(i) + seq!['}']
}

/// `cmd` with the placeholders `{0}` up to `{n - 1}` replaced, one after the
/// other, by the respective arguments.
pub open spec fn replace_numbered(cmd: Seq<char>, args: Seq<Seq<char>>, n: nat) -> Seq<char>
    decreases n,
{
    if n == 0 {
        cmd
    } else {
        replace_all(replace_numbered(cmd, args, (n - 1) as nat), placeholder((n - 1) as nat), args[n - 1])
    }
}

/// What `replace_placeholders` makes of `cmd`: without arguments, `cmd`
/// itself; else every `{}` replaced by the first argument, and then every
/// `{i}` by argument `i`, for each argument in turn.
pub open spec fn placeholders_replaced(cmd: Seq<char>, args: Seq<Seq<char>>) -> Seq<char> {
    if args.len() == 0 {
        cmd
    } else {
        replace_numbered(replace_all(cmd, seq!['{', '}'], args[0]), args, args.len())
    }
}

/// Replaces the placeholders of a command by the values of the arguments
/// given: `{}` is replaced by the first argument, and `{0}`, `{1}`, etc. by
/// the respective argument.
pub fn replace_placeholders(cmd: &str, args: &[&str]) -> (r: String)
    ensures
        r@ == placeholders_replaced(cmd@, args@.map_values(|a: &str| a@)),
{
    let ghost vals = args@.map_values(|a: &str| a@);
    let c = chars_of(cmd);
    if args.len() == 0 {
        return string_of(&c);
    }
    let mut braces: Vec<char> = Vec::new();
    braces.push('{');
    braces.push('}');
    assert(braces@ =~= seq!['{', '}']);
    let first = chars_of(args[0]);
    let mut acc = replace_chars(&c, &braces, &first);
    let mut i: usize = 0;
    while i < args.len()
        invariant
            0 <= i <= args@.len(),
            vals == args@.map_values(|a: &str| a@),
            vals.len() > 0,
            acc@ == replace_numbered(replace_all(cmd@, seq!['{', '}'], vals[0]), vals, i as nat),
        decreases args.len() - i,
    {
        let mut pat: Vec<char> = Vec::new();
        pat.push('{');
        push_decimal(&mut pat, i as u64);
        pat.push('}');
        assert(pat@ =~= placeholder(i as nat));
        let arg = chars_of(args[i]);
        acc = replace_chars(&acc, &pat, &arg);
        i = i + 1;
    }
    string_of(&acc)
}

} // verus!
