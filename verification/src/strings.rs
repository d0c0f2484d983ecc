//! Work on the characters of command texts: splitting, removing, searching.

use vstd::prelude::*;

verus! {

/// `s` without the occurrences of the character `c`.
pub open spec fn without_char(s: Seq<char>, c: char) -> Seq<char>
    decreases s.len(),
{
    if s.len() == 0 {
        s
    } else if s.last() == c {
        without_char(s.drop_last(), c)
    } else {
        without_char(s.drop_last(), c).push(s.last())
    }
}

/// The pieces of `s` between the occurrences of the character `c`, in
/// order. There is one piece more than there are occurrences: a text
/// without any is its own single piece, and pieces may be empty.
pub open spec fn split_on(s: Seq<char>, c: char) -> Seq<Seq<char>>
    decreases s.len(),
{
    if s.len() == 0 {
        seq![Seq::empty()]
    } else {
        let before = split_on(s.drop_last(), c);
        if s.last() == c {
            before.push(Seq::empty())
        } else {
            before.drop_last().push(before.last().push(s.last()))
        }
    }
}

/// Whether `part` occurs in `s` at the position `at`.
pub open spec fn occurs_at(s: Seq<char>, part: Seq<char>, at: int) -> bool {
    0 <= at && at + part.len() <= s.len() && s.subrange(at, at + part.len()) == part
}

/// Whether `part` occurs in `s`.
pub open spec fn contains_text(s: Seq<char>, part: Seq<char>) -> bool {
    exists|at: int| occurs_at(s, part, at)
}

/// Whether `s` starts with `part`.
pub open spec fn starts_with_text(s: Seq<char>, part: Seq<char>) -> bool {
    occurs_at(s, part, 0)
}

/// The piece of `s` before the first occurrence of the character `c`; all
/// of `s` if `c` does not occur.
pub open spec fn first_piece(s: Seq<char>, c: char) -> Seq<char>
    decreases s.len(),
{
    if s.len() == 0 || s[0] == c {
        Seq::empty()
    } else {
        seq![s[0]] + first_piece(s.drop_first(), c)
    }
}

/// Appends a character to a string.
///
/// Trusted: `String::push` of the standard library, which appends the given
/// character to the end of the string.
#[verifier::external_body]
fn push_char(s: &mut String, c: char)
    ensures
        final(s)@ == old(s)@.push(c),
{
    s.push(c)
}

/// The string of the characters `v`.
pub fn text_of_chars(v: &Vec<char>) -> (s: String)
    ensures
        s@ == v@,
{
    let mut s = String::new();
    let mut i: usize = 0;
    while i < v.len()
        invariant
            i <= v@.len(),
            s@ == v@.take(i as int),
        decreases v@.len() - i,
    {
        push_char(&mut s, v[i]);
        assert(s@ =~= v@.take(i + 1));
        i += 1;
    }
    assert(v@.take(v@.len() as int) =~= v@);
    s
}

/// The characters of `v` without the occurrences of `c`.
pub fn remove_char(v: &Vec<char>, c: char) -> (r: Vec<char>)
    ensures
        r@ == without_char(v@, c),
{
    let mut r: Vec<char> = Vec::new();
    let mut i: usize = 0;
    while i < v.len()
        invariant
            i <= v@.len(),
            r@ == without_char(v@.take(i as int), c),
        decreases v@.len() - i,
    {
        assert(v@.take(i + 1).drop_last() =~= v@.take(i as int));
        if v[i] != c {
            r.push(v[i]);
        }
        i += 1;
    }
    assert(v@.take(v@.len() as int) =~= v@);
    r
}

/// The character sequences of the vectors `pieces`.
pub open spec fn piece_views(pieces: Seq<Vec<char>>) -> Seq<Seq<char>> {
    Seq::new(pieces.len(), |i: int| pieces[i]@)
}

/// The pieces of `v` between the occurrences of `c`.
pub fn split_chars(v: &Vec<char>, c: char) -> (r: Vec<Vec<char>>)
    ensures
        piece_views(r@) == split_on(v@, c),
        r@.len() >= 1,
{
    let mut done: Vec<Vec<char>> = Vec::new();
    let mut current: Vec<char> = Vec::new();
    let mut i: usize = 0;
    assert(piece_views(done@).push(current@) =~= split_on(v@.take(0), c));
    while i < v.len()
        invariant
            i <= v@.len(),
            piece_views(done@).push(current@) == split_on(v@.take(i as int), c),
        decreases v@.len() - i,
    {
        assert(v@.take(i + 1).drop_last() =~= v@.take(i as int));
        let ghost before = piece_views(done@).push(current@);
        assert(before.drop_last() =~= piece_views(done@));
        if v[i] == c {
            done.push(current);
            current = Vec::new();
            assert(piece_views(done@).push(current@) =~= before.push(Seq::empty()));
        } else {
            current.push(v[i]);
            assert(piece_views(done@).push(current@) =~= before.drop_last().push(
                before.last().push(v@[i as int]),
            ));
        }
        i += 1;
    }
    assert(v@.take(v@.len() as int) =~= v@);
    let ghost all = piece_views(done@).push(current@);
    done.push(current);
    assert(piece_views(done@) =~= all);
    done
}

/// Whether `part` occurs in `v` at the position `at`.
fn occurs_here(v: &Vec<char>, part: &Vec<char>, at: usize) -> (r: bool)
    requires
        at + part@.len() <= v@.len(),
    ensures
        r == occurs_at(v@, part@, at as int),
{
    let mut k: usize = 0;
    while k < part.len()
        invariant
            k <= part@.len(),
            at + part@.len() <= v@.len(),
            v@.len() == v.len(),
            forall|j: int| 0 <= j < k ==> v@[at + j] == part@[j],
        decreases part@.len() - k,
    {
        if v[at + k] != part[k] {
            assert(v@.subrange(at as int, at + part@.len())[k as int] != part@[k as int]);
            return false;
        }
        k += 1;
    }
    assert(v@.subrange(at as int, at + part@.len()) =~= part@);
    true
}

/// Whether `part` occurs in `v`.
pub fn contains_chars(v: &Vec<char>, part: &Vec<char>) -> (r: bool)
    ensures
        r == contains_text(v@, part@),
{
    if part.len() > v.len() {
        return false;
    }
    let last = v.len() - part.len();
    let mut at: usize = 0;
    loop
        invariant
            at <= last,
            last == v@.len() - part@.len(),
            forall|j: int| 0 <= j < at ==> !occurs_at(v@, part@, j),
        decreases last - at,
    {
        if occurs_here(v, part, at) {
            return true;
        }
        if at == last {
            return false;
        }
        at += 1;
    }
}

/// Whether `v` starts with `part`.
pub fn starts_with_chars(v: &Vec<char>, part: &Vec<char>) -> (r: bool)
    ensures
        r == starts_with_text(v@, part@),
{
    if part.len() > v.len() {
        return false;
    }
    occurs_here(v, part, 0)
}

/// The characters of `v` before the first occurrence of `c`.
pub fn first_piece_of(v: &Vec<char>, c: char) -> (r: Vec<char>)
    ensures
        r@ == first_piece(v@, c),
{
    let mut r: Vec<char> = Vec::new();
    let mut i: usize = 0;
    assert(v@.skip(0) =~= v@);
    while i < v.len() && v[i] != c
        invariant
            i <= v@.len(),
            first_piece(v@, c) == r@ + first_piece(v@.skip(i as int), c),
        decreases v@.len() - i,
    {
        assert(v@.skip(i as int).drop_first() =~= v@.skip(i + 1));
        assert(v@.skip(i as int)[0] == v@[i as int]);
        let ghost before = r@;
        r.push(v[i]);
        assert(r@ + first_piece(v@.skip(i + 1), c) =~= before + (seq![v@[i as int]] + first_piece(
            v@.skip(i + 1),
            c,
        )));
        i += 1;
    }
    assert(first_piece(v@.skip(i as int), c) =~= Seq::<char>::empty()) by {
        if i < v@.len() {
            assert(v@.skip(i as int)[0] == v@[i as int]);
        }
    }
    assert(r@ + Seq::<char>::empty() =~= r@);
    r
}

/// `s` without the occurrences of the text `part`, found from left to
/// right, none overlapping another. An empty `part` occurs nowhere.
pub open spec fn without_text(s: Seq<char>, part: Seq<char>) -> Seq<char>
    decreases s.len(),
{
    if part.len() == 0 || s.len() < part.len() {
        s
    } else if occurs_at(s, part, 0) {
        without_text(s.skip(part.len() as int), part)
    } else {
        seq![s[0]] + without_text(s.drop_first(), part)
    }
}

/// The characters of `v` without the occurrences of `part`.
pub fn remove_text(v: &Vec<char>, part: &Vec<char>) -> (r: Vec<char>)
    ensures
        r@ == without_text(v@, part@),
{
    let mut r: Vec<char> = Vec::new();
    let n = v.len();
    let m = part.len();
    let mut i: usize = 0;
    assert(v@.skip(0) =~= v@);
    if m == 0 || n < m {
        let mut k: usize = 0;
        while k < n
            invariant
                k <= n,
                n == v@.len(),
                r@ == v@.take(k as int),
            decreases n - k,
        {
            r.push(v[k]);
            assert(r@ =~= v@.take(k + 1));
            k += 1;
        }
        assert(v@.take(n as int) =~= v@);
        return r;
    }
    while i < n
        invariant
            i <= n,
            n == v@.len(),
            m == part@.len(),
            0 < m <= n,
            without_text(v@, part@) == r@ + without_text(v@.skip(i as int), part@),
        decreases n - i,
    {
        let ghost rest = v@.skip(i as int);
        let ghost before = r@;
        if n - i >= m {
            assert(rest.subrange(0, m as int) =~= v@.subrange(i as int, i + m));
            if occurs_here(v, part, i) {
                assert(rest.skip(m as int) =~= v@.skip(i + m));
                i += m;
            } else {
                assert(rest.drop_first() =~= v@.skip(i + 1));
                assert(rest[0] == v@[i as int]);
                r.push(v[i]);
                assert(r@ + without_text(v@.skip(i + 1), part@) =~= before + (seq![rest[0]]
                    + without_text(rest.drop_first(), part@)));
                i += 1;
            }
        } else {
            assert(rest.len() < m);
            assert(rest.drop_first() =~= v@.skip(i + 1));
            assert(rest[0] == v@[i as int]);
            r.push(v[i]);
            proof {
                lemma_without_text_short(rest, part@);
                lemma_without_text_short(rest.drop_first(), part@);
                assert(rest =~= seq![rest[0]] + rest.drop_first());
                assert(r@ + rest.drop_first() =~= before + rest);
            }
            i += 1;
        }
    }
    assert(v@.skip(n as int) =~= Seq::<char>::empty());
    assert(r@ + Seq::<char>::empty() =~= r@);
    r
}

/// A text shorter than `part` holds no occurrence of it.
pub proof fn lemma_without_text_short(s: Seq<char>, part: Seq<char>)
    requires
        s.len() < part.len(),
    ensures
        without_text(s, part) == s,
{
}

} // verus!
