//! Escape sequences in a message template given on the command line.
use vstd::prelude::*;
use crate::text::{chars_of, string_of};

verus! {

/// `s` with `\n`, `\r`, `\t` and `\\` read as line feed, carriage return, tab
/// and backslash; any other backslash stays as it is.
pub open spec fn unescaped(s: Seq<char>) -> Seq<char>
    decreases s.len(),
{
    if s.len() == 0 {
        s
    } else if s[0] == '\\' && s.len() >= 2 {
        let n = s[1];
        if n == 'n' {
            seq!['\n'] + unescaped(s.skip(2))
        } else if n == 'r' {
            seq!['\r'] + unescaped(s.skip(2))
        } else if n == 't' {
            seq!['\t'] + unescaped(s.skip(2))
        } else if n == '\\' {
            seq!['\\'] + unescaped(s.skip(2))
        } else {
            seq!['\\'] + unescaped(s.skip(1))
        }
    } else {
        seq![s[0]] + unescaped(s.skip(1))
    }
}

/// Reads the escape sequences of a template.
pub fn unescape_template(s: String) -> (r: String)
    ensures
        r@ == unescaped(s@),
{
    let v = chars_of(s.as_str());
    let ghost t = v@;
    let mut out: Vec<char> = Vec::new();
    let mut i: usize = 0;
    assert(t.skip(0) =~= t);
    while i < v.len()
        invariant
            i <= v@.len(),
            v@ == t,
            out@ + unescaped(t.skip(i as int)) == unescaped(t),
        decreases v.len() - i,
    {
        let rest = Ghost(t.skip(i as int));
        let c = v[i];
        if c == '\\' && v.len() - i >= 2 {
            let n = v[i + 1];
            let e: char = if n == 'n' {
                '\n'
            } else if n == 'r' {
                '\r'
            } else if n == 't' {
                '\t'
            } else {
                '\\'
            };
            if n == 'n' || n == 'r' || n == 't' || n == '\\' {
                assert(rest@.skip(2) =~= t.skip(i + 2));
                assert(out@.push(e) + unescaped(t.skip(i + 2)) =~= out@ + unescaped(rest@));
                out.push(e);
                i = i + 2;
            } else {
                assert(rest@.skip(1) =~= t.skip(i + 1));
                assert(out@.push('\\') + unescaped(t.skip(i + 1)) =~= out@ + unescaped(rest@));
                out.push('\\');
                i = i + 1;
            }
        } else {
            assert(rest@.skip(1) =~= t.skip(i + 1));
            assert(out@.push(c) + unescaped(t.skip(i + 1)) =~= out@ + unescaped(rest@));
            out.push(c);
            i = i + 1;
        }
    }
    assert(t.skip(i as int) =~= Seq::<char>::empty());
    assert(out@ + unescaped(t.skip(i as int)) =~= out@);
    string_of(&out)
}

} // verus!
