//! The `key=value` list of a transport-metadata line.
use vstd::prelude::*;
use crate::text::{
    find_char, find_from, is_white_space, is_white_space_char, lemma_find_from, matches_at,
    slice_of,
};

verus! {

/// Commas read as spaces.
pub open spec fn commas_to_spaces(s: Seq<char>) -> Seq<char> {
    s.map_values(|c: char| if c == ',' { ' ' } else { c })
}

/// Each ` = ` read as `=`, left to right.
pub open spec fn collapse_equals(s: Seq<char>) -> Seq<char>
    decreases s.len(),
{
    if s.len() >= 3 && s[0] == ' ' && s[1] == '=' && s[2] == ' ' {
        seq!['='] + collapse_equals(s.skip(3))
    } else if s.len() == 0 {
        s
    } else {
        seq![s[0]] + collapse_equals(s.skip(1))
    }
}

/// The words found so far and the word being read, after reading `s`.
pub open spec fn split_state(s: Seq<char>) -> (Seq<Seq<char>>, Seq<char>)
    decreases s.len(),
{
    if s.len() == 0 {
        (Seq::empty(), Seq::empty())
    } else {
        let (done, cur) = split_state(s.drop_last());
        let c = s.last();
        if is_white_space(c) {
            if cur.len() > 0 {
                (done.push(cur), Seq::empty())
            } else {
                (done, cur)
            }
        } else {
            (done, cur.push(c))
        }
    }
}

/// The maximal runs of characters other than white space, in order.
pub open spec fn words(s: Seq<char>) -> Seq<Seq<char>> {
    let (done, cur) = split_state(s);
    if cur.len() > 0 {
        done.push(cur)
    } else {
        done
    }
}

/// The words of a metadata list.
pub open spec fn field_words(body: Seq<char>) -> Seq<Seq<char>> {
    words(collapse_equals(commas_to_spaces(body)))
}

/// The value of `key`: what follows the first `=` of the last word that holds
/// one and whose text before it is `key`.
pub open spec fn field_of(ws: Seq<Seq<char>>, key: Seq<char>) -> Option<Seq<char>>
    decreases ws.len(),
{
    if ws.len() == 0 {
        None
    } else {
        let w = ws.last();
        let e = find_from(w, '=', 0);
        if e != -1 && w.take(e) == key {
            Some(w.skip(e + 1))
        } else {
            field_of(ws.drop_last(), key)
        }
    }
}

/// The characters of each word.
pub open spec fn views(ws: Seq<Vec<char>>) -> Seq<Seq<char>> {
    ws.map_values(|w: Vec<char>| w@)
}

/// Commas read as spaces, then each ` = ` as `=`.
pub fn normalize(body: &[char]) -> (r: Vec<char>)
    ensures
        r@ == collapse_equals(commas_to_spaces(body@)),
{
    let ghost b = commas_to_spaces(body@);
    let mut sp: Vec<char> = Vec::new();
    let mut i: usize = 0;
    while i < body.len()
        invariant
            i <= body@.len(),
            b == commas_to_spaces(body@),
            sp@ == b.take(i as int),
        decreases body.len() - i,
    {
        let c = body[i];
        sp.push(if c == ',' { ' ' } else { c });
        i = i + 1;
        assert(sp@ =~= b.take(i as int));
    }
    assert(sp@ =~= b);
    let mut out: Vec<char> = Vec::new();
    let mut j: usize = 0;
    assert(sp@.skip(0) =~= sp@);
    while j < sp.len()
        invariant
            j <= sp@.len(),
            sp@ == b,
            out@ + collapse_equals(b.skip(j as int)) == collapse_equals(b),
        decreases sp.len() - j,
    {
        let rest = Ghost(b.skip(j as int));
        if sp.len() - j >= 3 && sp[j] == ' ' && sp[j + 1] == '=' && sp[j + 2] == ' ' {
            assert(rest@.skip(3) =~= b.skip(j + 3));
            assert(out@.push('=') + collapse_equals(b.skip(j + 3)) =~= out@ + collapse_equals(
                rest@,
            ));
            out.push('=');
            j = j + 3;
        } else {
            assert(rest@.skip(1) =~= b.skip(j + 1));
            assert(out@.push(sp@[j as int]) + collapse_equals(b.skip(j + 1)) =~= out@
                + collapse_equals(rest@));
            out.push(sp[j]);
            j = j + 1;
        }
    }
    assert(b.skip(j as int) =~= Seq::<char>::empty());
    assert(out@ + collapse_equals(b.skip(j as int)) =~= out@);
    out
}

/// The maximal runs of characters other than white space, in order.
pub fn split_words(s: &[char]) -> (r: Vec<Vec<char>>)
    ensures
        views(r@) == words(s@),
{
    let mut done: Vec<Vec<char>> = Vec::new();
    let mut cur: Vec<char> = Vec::new();
    let mut i: usize = 0;
    assert(s@.take(0) =~= Seq::<char>::empty());
    assert(views(done@) =~= Seq::<Seq<char>>::empty());
    while i < s.len()
        invariant
            i <= s@.len(),
            (views(done@), cur@) == split_state(s@.take(i as int)),
        decreases s.len() - i,
    {
        let c = s[i];
        assert(s@.take(i + 1).drop_last() =~= s@.take(i as int));
        if is_white_space_char(c) {
            if cur.len() > 0 {
                let ghost before = views(done@);
                let w = cur;
                cur = Vec::new();
                done.push(w);
                assert(views(done@) =~= before.push(w@));
            }
        } else {
            cur.push(c);
        }
        i = i + 1;
    }
    assert(s@.take(i as int) =~= s@);
    if cur.len() > 0 {
        let ghost before = views(done@);
        let ghost last = cur@;
        done.push(cur);
        assert(views(done@) =~= before.push(last));
    }
    done
}

/// The value of `key` among the words `ws`.
pub fn field(ws: &Vec<Vec<char>>, key: &str) -> (r: Option<Vec<char>>)
    ensures
        match r {
            Some(v) => field_of(views(ws@), key@) == Some(v@),
            None => field_of(views(ws@), key@) is None,
        },
{
    let n = key.unicode_len();
    let mut i: usize = ws.len();
    assert(views(ws@).take(i as int) =~= views(ws@));
    while i > 0
        invariant
            i <= ws@.len(),
            n == key@.len(),
            field_of(views(ws@), key@) == field_of(views(ws@).take(i as int), key@),
        decreases i,
    {
        let w = &ws[i - 1];
        let ghost t = views(ws@).take(i as int);
        assert(t.last() == w@);
        assert(t.drop_last() =~= views(ws@).take(i - 1));
        match find_char(w, '=', 0) {
            Some(e) => {
                proof {
                    lemma_find_from(w@, '=', 0);
                }
                assert(e < w.len());
                if e == n && matches_at(w, 0, key) {
                    assert(w@.take(e as int) =~= w@.subrange(0, n as int));
                    let v = slice_of(w, e + 1, w.len());
                    assert(v@ =~= w@.skip(e + 1));
                    return Some(v);
                }
                assert(w@.take(e as int) != key@) by {
                    if w@.take(e as int) == key@ {
                        assert(w@.subrange(0, n as int) =~= w@.take(e as int));
                    }
                }
            },
            None => {},
        }
        i = i - 1;
    }
    None
}

} // verus!
