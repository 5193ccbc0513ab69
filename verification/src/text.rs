//! Character-level text handling: splitting on a separator, comparing,
//! and building `String`s from characters.
use vstd::prelude::*;

verus! {

/// `sep` occurs in `s` starting at position `i`.
pub open spec fn occurs_at(s: Seq<char>, sep: Seq<char>, i: int) -> bool {
    0 <= i && i + sep.len() <= s.len() && s.subrange(i, i + sep.len()) == sep
}

/// The first position at or after `i` where `sep` occurs in `s`.
pub open spec fn find_from(s: Seq<char>, sep: Seq<char>, i: int) -> Option<int>
    decreases s.len() + 1 - i,
{
    if i < 0 || i + sep.len() > s.len() {
        None
    } else if occurs_at(s, sep, i) {
        Some(i)
    } else {
        find_from(s, sep, i + 1)
    }
}

pub proof fn lemma_find_from_bounds(s: Seq<char>, sep: Seq<char>, i: int)
    ensures
        find_from(s, sep, i) matches Some(j) ==> i <= j && j + sep.len() <= s.len() && occurs_at(
            s,
            sep,
            j,
        ),
    decreases s.len() + 1 - i,
{
    if i < 0 || i + sep.len() > s.len() {
    } else if occurs_at(s, sep, i) {
    } else {
        lemma_find_from_bounds(s, sep, i + 1);
    }
}

/// The pieces of `s[start..]` between the non-overlapping occurrences of
/// `sep`, searched left to right (the behaviour of `str::split` with a
/// non-empty pattern).
pub open spec fn split_from(s: Seq<char>, sep: Seq<char>, start: int) -> Seq<Seq<char>>
    decreases s.len() + 1 - start,
{
    if sep.len() == 0 || start < 0 || start > s.len() {
        seq![]
    } else {
        match find_from(s, sep, start) {
            Some(i) => {
                proof {
                    lemma_find_from_bounds(s, sep, start);
                }
                seq![s.subrange(start, i)] + split_from(s, sep, i + sep.len())
            },
            None => seq![s.subrange(start, s.len() as int)],
        }
    }
}

/// `s` split on every occurrence of the non-empty separator `sep`.
pub open spec fn split_by(s: Seq<char>, sep: Seq<char>) -> Seq<Seq<char>> {
    split_from(s, sep, 0)
}

/// Views of a sequence of character vectors.
pub open spec fn views(v: Seq<Vec<char>>) -> Seq<Seq<char>> {
    v.map_values(|p: Vec<char>| p@)
}

/// Appends `c` to `s` (`String::push`).
#[verifier::external_body]
fn push_char(s: &mut String, c: char)
    ensures
        final(s)@ == old(s)@.push(c),
{
    s.push(c);
}

/// The characters of a string slice, in order.
pub fn chars_of(s: &str) -> (v: Vec<char>)
    ensures
        v@ == s@,
{
    let mut v: Vec<char> = Vec::new();
    for c in it: s.chars()
        invariant
            v@ == it.seq().take(it.index() as int),
            it.seq() == s@,
    {
        v.push(c);
    }
    v
}

/// A `String` holding exactly the given characters.
pub fn string_from_chars(v: &Vec<char>) -> (s: String)
    ensures
        s@ == v@,
{
    let mut s = String::new();
    let mut i: usize = 0;
    while i < v.len()
        invariant
            i <= v.len(),
            s@ == v@.take(i as int),
        decreases v.len() - i,
    {
        push_char(&mut s, v[i]);
        i += 1;
        assert(s@ =~= v@.take(i as int));
    }
    assert(v@.take(v.len() as int) =~= v@);
    s
}

/// An owned copy of a text.
pub fn text_of(s: &str) -> (r: String)
    ensures
        r@ == s@,
{
    let v = chars_of(s);
    string_from_chars(&v)
}

/// The text `a` followed by the text `b`.
pub fn concat_text(a: &str, b: &str) -> (r: String)
    ensures
        r@ == a@ + b@,
{
    let mut v = chars_of(a);
    let w = chars_of(b);
    let mut i: usize = 0;
    let ghost v0 = v@;
    while i < w.len()
        invariant
            i <= w.len(),
            v@ == v0 + w@.take(i as int),
        decreases w.len() - i,
    {
        v.push(w[i]);
        i += 1;
        assert(v@ =~= v0 + w@.take(i as int));
    }
    assert(w@.take(w.len() as int) =~= w@);
    string_from_chars(&v)
}

/// No occurrence of `sep` starts at or after `i` when its first character
/// does not occur there.
pub proof fn lemma_find_none(s: Seq<char>, sep: Seq<char>, i: int)
    requires
        sep.len() > 0,
        i >= 0,
        forall|k: int| i <= k < s.len() ==> s[k] != sep[0],
    ensures
        find_from(s, sep, i) == None::<int>,
    decreases s.len() + 1 - i,
{
    if i + sep.len() <= s.len() {
        assert(s.subrange(i, i + sep.len())[0] == s[i]);
        lemma_find_none(s, sep, i + 1);
    }
}

/// The first occurrence of `sep` at or after `i` is at `j` when it occurs
/// at `j` and nowhere in between.
pub proof fn lemma_find_first(s: Seq<char>, sep: Seq<char>, i: int, j: int)
    requires
        0 <= i <= j,
        occurs_at(s, sep, j),
        forall|k: int| i <= k < j ==> !occurs_at(s, sep, k),
    ensures
        find_from(s, sep, i) == Some(j),
    decreases j - i,
{
    if i < j {
        lemma_find_first(s, sep, i + 1, j);
    }
}

/// Whether two character vectors hold the same characters.
pub fn chars_eq(a: &Vec<char>, b: &Vec<char>) -> (r: bool)
    ensures
        r == (a@ == b@),
{
    if a.len() != b.len() {
        return false;
    }
    let mut i: usize = 0;
    while i < a.len()
        invariant
            i <= a.len(),
            a.len() == b.len(),
            forall|k: int| 0 <= k < i ==> a@[k] == b@[k],
        decreases a.len() - i,
    {
        if a[i] != b[i] {
            return false;
        }
        i += 1;
    }
    assert(a@ =~= b@);
    true
}

/// The characters `v[from..to]`.
pub fn copy_range(v: &Vec<char>, from: usize, to: usize) -> (r: Vec<char>)
    requires
        from <= to <= v.len(),
    ensures
        r@ == v@.subrange(from as int, to as int),
{
    let mut r: Vec<char> = Vec::new();
    let mut i = from;
    while i < to
        invariant
            from <= i <= to <= v.len(),
            r@ == v@.subrange(from as int, i as int),
        decreases to - i,
    {
        r.push(v[i]);
        i += 1;
        assert(r@ =~= v@.subrange(from as int, i as int));
    }
    r
}

fn occurs_at_exec(s: &Vec<char>, sep: &Vec<char>, i: usize) -> (b: bool)
    requires
        i + sep.len() <= s.len(),
    ensures
        b == occurs_at(s@, sep@, i as int),
{
    let mut k: usize = 0;
    while k < sep.len()
        invariant
            k <= sep.len(),
            i + sep.len() <= s.len(),
            forall|m: int| 0 <= m < k ==> s@[i + m] == sep@[m],
        decreases sep.len() - k,
    {
        if s[i + k] != sep[k] {
            assert(s@.subrange(i as int, i + sep.len())[k as int] != sep@[k as int]);
            return false;
        }
        k += 1;
    }
    assert(s@.subrange(i as int, i + sep.len()) =~= sep@);
    true
}

/// Splits `s` on every occurrence of the non-empty separator `sep`.
pub fn split_chars(s: &Vec<char>, sep: &Vec<char>) -> (pieces: Vec<Vec<char>>)
    requires
        sep.len() > 0,
    ensures
        views(pieces@) == split_by(s@, sep@),
        pieces.len() >= 1,
{
    let mut pieces: Vec<Vec<char>> = Vec::new();
    let mut start: usize = 0;
    let mut i: usize = 0;
    while sep.len() <= s.len() && i <= s.len() - sep.len()
        invariant
            0 <= start <= i <= s.len(),
            sep.len() > 0,
            split_by(s@, sep@) == views(pieces@) + split_from(s@, sep@, start as int),
            find_from(s@, sep@, start as int) == find_from(s@, sep@, i as int),
        decreases s.len() - i,
    {
        if occurs_at_exec(s, sep, i) {
            let piece = copy_range(s, start, i);
            proof {
                assert(find_from(s@, sep@, i as int) == Some(i as int));
                assert(split_from(s@, sep@, start as int) == seq![s@.subrange(start as int, i as int)]
                    + split_from(s@, sep@, i + sep.len()));
                assert(views(pieces@.push(piece)) =~= views(pieces@).push(piece@));
            }
            pieces.push(piece);
            i = i + sep.len();
            start = i;
            proof {
                assert(split_by(s@, sep@) =~= views(pieces@) + split_from(s@, sep@, start as int));
            }
        } else {
            i += 1;
        }
    }
    let last = copy_range(s, start, s.len());
    proof {
        assert(find_from(s@, sep@, i as int) == None::<int>);
        assert(split_from(s@, sep@, start as int) == seq![s@.subrange(start as int, s@.len() as int)]);
        assert(views(pieces@.push(last)) =~= views(pieces@).push(last@));
    }
    pieces.push(last);
    proof {
        assert(split_by(s@, sep@) =~= views(pieces@));
    }
    pieces
}

} // verus!
