//! Strings as sequences of characters: searching, splitting and joining.

use vstd::prelude::*;

verus! {

/// Equality of two string slices, by `str::eq`: `true` exactly when both
/// hold the same characters.
#[verifier::external_body]
pub(crate) fn same_text(a: &str, b: &str) -> (same: bool)
    ensures
        same == (a@ == b@),
{
    a == b
}

/// Collects characters into a `String` with `String::from_iter`: the
/// string holds exactly the given characters, in order.
#[verifier::external_body]
pub(crate) fn string_of(chars: &Vec<char>) -> (s: String)
    ensures
        s@ == chars@,
{
    String::from_iter(chars.iter())
}

/// The text that `str::to_lowercase` makes of `s`.
pub uninterp spec fn lowercase_of(s: Seq<char>) -> Seq<char>;

/// Calls `str::to_lowercase`. Nothing is claimed of the result but that
/// it is the same for the same text.
#[verifier::external_body]
pub(crate) fn lowercase(s: &str) -> (lower: String)
    ensures
        lower@ == lowercase_of(s@),
{
    s.to_lowercase()
}

/// The characters of `s`, in order.
pub fn chars_of(s: &str) -> (chars: Vec<char>)
    ensures
        chars@ == s@,
{
    broadcast use vstd::string::axiom_spec_iter;

    let mut chars: Vec<char> = Vec::new();
    for c in it: s.chars()
        invariant
            it.seq() == s@,
            chars@ =~= s@.take(it.index()),
    {
        chars.push(c);
    }
    assert(s@.take(s@.len() as int) =~= s@);
    chars
}

/// The position of the first `c` in `s`, or the length of `s` if it holds none.
pub open spec fn index_of(s: Seq<char>, c: char) -> int
    decreases s.len(),
{
    if s.len() == 0 || s[0] == c {
        0
    } else {
        1 + index_of(s.drop_first(), c)
    }
}

/// `index_of` is the least position that holds `c`.
pub proof fn lemma_index_of(s: Seq<char>, c: char)
    ensures
        0 <= index_of(s, c) <= s.len(),
        forall|j: int| 0 <= j < index_of(s, c) ==> s[j] != c,
        index_of(s, c) < s.len() ==> s[index_of(s, c)] == c,
    decreases s.len(),
{
    if s.len() != 0 && s[0] != c {
        let rest = s.drop_first();
        lemma_index_of(rest, c);
        assert forall|j: int| 0 <= j < index_of(s, c) implies s[j] != c by {
            if j > 0 {
                assert(s[j] == rest[j - 1]);
            }
        }
        assert(index_of(s, c) < s.len() ==> s[index_of(s, c)] == rest[index_of(rest, c)]);
    }
}

/// A position below which `s` holds no `c`, and which holds `c` or ends
/// `s`, is `index_of`.
pub proof fn lemma_index_of_is(s: Seq<char>, c: char, i: int)
    requires
        0 <= i <= s.len(),
        forall|j: int| 0 <= j < i ==> s[j] != c,
        i < s.len() ==> s[i] == c,
    ensures
        index_of(s, c) == i,
{
    lemma_index_of(s, c);
}

/// The pieces of `s` between occurrences of `sep`. There is always at
/// least one piece; a separator at either end leaves an empty piece there.
pub open spec fn split_on(s: Seq<char>, sep: char) -> Seq<Seq<char>>
    decreases s.len(),
{
    let i = index_of(s, sep);
    if 0 <= i < s.len() {
        seq![s.take(i)] + split_on(s.skip(i + 1), sep)
    } else {
        seq![s]
    }
}

/// The pieces put together with one `sep` between neighbours.
pub open spec fn join_with(parts: Seq<Seq<char>>, sep: char) -> Seq<char>
    decreases parts.len(),
{
    if parts.len() == 0 {
        Seq::empty()
    } else if parts.len() == 1 {
        parts[0]
    } else {
        parts[0] + seq![sep] + join_with(parts.drop_first(), sep)
    }
}

/// Tells whether `s` holds `c`.
pub open spec fn has_char(s: Seq<char>, c: char) -> bool {
    index_of(s, c) < s.len()
}

/// No piece of a split holds the separator.
pub proof fn lemma_split_pieces(s: Seq<char>, sep: char)
    ensures
        split_on(s, sep).len() >= 1,
        forall|k: int|
            0 <= k < split_on(s, sep).len() ==> !has_char(#[trigger] split_on(s, sep)[k], sep),
    decreases s.len(),
{
    lemma_index_of(s, sep);
    let i = index_of(s, sep);
    if i < s.len() {
        let rest = s.skip(i + 1);
        lemma_split_pieces(rest, sep);
        lemma_index_of_is(s.take(i), sep, i);
        assert forall|k: int| 0 <= k < split_on(s, sep).len() implies !has_char(
            #[trigger] split_on(s, sep)[k],
            sep,
        ) by {
            if k > 0 {
                assert(split_on(s, sep)[k] == split_on(rest, sep)[k - 1]);
            }
        }
    } else {
        lemma_index_of_is(s, sep, s.len() as int);
    }
}

/// Splitting what was joined gives the pieces back, where there is at
/// least one piece and none holds the separator.
pub proof fn lemma_split_of_join(parts: Seq<Seq<char>>, sep: char)
    requires
        parts.len() >= 1,
        forall|k: int| 0 <= k < parts.len() ==> !has_char(#[trigger] parts[k], sep),
    ensures
        split_on(join_with(parts, sep), sep) == parts,
    decreases parts.len(),
{
    let joined = join_with(parts, sep);
    let head = parts[0];
    lemma_index_of(head, sep);
    assert(!has_char(head, sep));
    if parts.len() == 1 {
        lemma_index_of_is(joined, sep, joined.len() as int);
        assert(split_on(joined, sep) =~= parts);
    } else {
        let rest = parts.drop_first();
        assert forall|k: int| 0 <= k < rest.len() implies !has_char(#[trigger] rest[k], sep) by {
            assert(rest[k] == parts[k + 1]);
        }
        lemma_split_of_join(rest, sep);
        let i = head.len() as int;
        assert(joined == head + seq![sep] + join_with(rest, sep));
        assert forall|j: int| 0 <= j < i implies joined[j] != sep by {
            assert(joined[j] == head[j]);
        }
        assert(joined[i] == sep);
        lemma_index_of_is(joined, sep, i);
        assert(joined.take(i) =~= head);
        assert(joined.skip(i + 1) =~= join_with(rest, sep));
        assert(split_on(joined, sep) =~= parts);
    }
}

/// Joining what was split gives the text back.
pub proof fn lemma_join_of_split(s: Seq<char>, sep: char)
    ensures
        join_with(split_on(s, sep), sep) == s,
    decreases s.len(),
{
    lemma_index_of(s, sep);
    let i = index_of(s, sep);
    if i < s.len() {
        let rest = s.skip(i + 1);
        lemma_join_of_split(rest, sep);
        lemma_split_pieces(rest, sep);
        let parts = split_on(s, sep);
        assert(parts.drop_first() =~= split_on(rest, sep));
        assert(parts[0] == s.take(i));
        assert(s.take(i) + seq![sep] + rest =~= s);
    }
}

/// The pieces held by a vector of character vectors.
pub open spec fn pieces(parts: Seq<Vec<char>>) -> Seq<Seq<char>> {
    parts.map_values(|p: Vec<char>| p@)
}

/// The position of the first `c` in `v` at or after `from`, or the length
/// of `v` if none follows.
pub fn find_char(v: &Vec<char>, from: usize, c: char) -> (at: usize)
    requires
        from <= v.len(),
    ensures
        at == from + index_of(v@.skip(from as int), c),
        from <= at <= v.len(),
{
    let mut at: usize = from;
    while at < v.len() && v[at] != c
        invariant
            from <= at <= v.len(),
            forall|j: int| from <= j < at ==> v@[j] != c,
        decreases v.len() - at,
    {
        at += 1;
    }
    proof {
        lemma_index_of_is(v@.skip(from as int), c, at - from);
    }
    at
}

/// A copy of the characters of `v` from `from` up to, not including, `to`.
pub fn copy_range(v: &Vec<char>, from: usize, to: usize) -> (piece: Vec<char>)
    requires
        from <= to <= v.len(),
    ensures
        piece@ == v@.subrange(from as int, to as int),
{
    let mut piece: Vec<char> = Vec::new();
    let mut i: usize = from;
    while i < to
        invariant
            from <= i <= to <= v.len(),
            piece@ =~= v@.subrange(from as int, i as int),
        decreases to - i,
    {
        piece.push(v[i]);
        i += 1;
    }
    piece
}

/// Splits `v` at every `sep`.
pub fn split_chars(v: &Vec<char>, sep: char) -> (parts: Vec<Vec<char>>)
    ensures
        pieces(parts@) == split_on(v@, sep),
{
    let mut parts: Vec<Vec<char>> = Vec::new();
    let mut start: usize = 0;
    proof {
        assert(v@.skip(0) =~= v@);
        assert(pieces(parts@) + split_on(v@, sep) =~= split_on(v@, sep));
    }
    loop
        invariant_except_break
            start <= v.len(),
            split_on(v@, sep) == pieces(parts@) + split_on(v@.skip(start as int), sep),
        ensures
            pieces(parts@) == split_on(v@, sep),
        decreases v.len() - start,
    {
        let at = find_char(v, start, sep);
        let piece = copy_range(v, start, at);
        let ghost before = pieces(parts@);
        let ghost tail = v@.skip(start as int);
        proof {
            lemma_index_of(tail, sep);
        }
        parts.push(piece);
        proof {
            assert(pieces(parts@) =~= before.push(piece@));
            assert(piece@ =~= tail.take(at - start));
        }
        if at == v.len() {
            proof {
                assert(split_on(tail, sep) == seq![tail]);
                assert(tail.take(at - start) =~= tail);
                assert(before + seq![tail] =~= before.push(tail));
            }
            break;
        }
        proof {
            assert(tail.skip(at - start + 1) =~= v@.skip(at + 1));
            assert(before + (seq![piece@] + split_on(v@.skip(at + 1), sep)) =~= before.push(piece@)
                + split_on(v@.skip(at + 1), sep));
        }
        start = at + 1;
    }
    parts
}

/// Appends the characters of `piece` to `out`.
pub fn append_chars(out: &mut Vec<char>, piece: &Vec<char>)
    ensures
        final(out)@ == old(out)@ + piece@,
{
    let mut i: usize = 0;
    while i < piece.len()
        invariant
            i <= piece.len(),
            out@ =~= old(out)@ + piece@.take(i as int),
        decreases piece.len() - i,
    {
        out.push(piece[i]);
        i += 1;
    }
    assert(piece@.take(piece.len() as int) =~= piece@);
}

/// Joins the pieces with one `sep` between neighbours.
pub fn join_chars(parts: &Vec<Vec<char>>, sep: char) -> (joined: Vec<char>)
    ensures
        joined@ == join_with(pieces(parts@), sep),
{
    let mut joined: Vec<char> = Vec::new();
    let ghost all = pieces(parts@);
    let mut i: usize = 0;
    proof {
        assert(all.skip(0) =~= all);
        assert(joined@ + join_with(all, sep) =~= join_with(all, sep));
    }
    while i < parts.len()
        invariant
            i <= parts.len(),
            all == pieces(parts@),
            join_with(all, sep) == joined@ + join_with(all.skip(i as int), sep),
        decreases parts.len() - i,
    {
        let ghost before = joined@;
        let ghost tail = all.skip(i as int);
        append_chars(&mut joined, &parts[i]);
        proof {
            assert(tail[0] == parts@[i as int]@);
            assert(tail.drop_first() =~= all.skip(i + 1));
        }
        if i + 1 < parts.len() {
            joined.push(sep);
            proof {
                assert(joined@ =~= before + tail[0] + seq![sep]);
                assert(before + (tail[0] + seq![sep] + join_with(all.skip(i + 1), sep)) =~= joined@
                    + join_with(all.skip(i + 1), sep));
            }
        } else {
            proof {
                assert(all.skip(i + 1).len() == 0);
                assert(joined@ + join_with(all.skip(i + 1), sep) =~= before + tail[0]);
            }
        }
        i += 1;
    }
    proof {
        assert(join_with(all.skip(parts.len() as int), sep) =~= Seq::<char>::empty());
        assert(joined@ + Seq::<char>::empty() =~= joined@);
    }
    joined
}

/// Tells whether `v` begins with the characters of `prefix`.
pub fn begins_with(v: &Vec<char>, prefix: &Vec<char>) -> (yes: bool)
    ensures
        yes == prefix@.is_prefix_of(v@),
{
    if prefix.len() > v.len() {
        return false;
    }
    let mut i: usize = 0;
    while i < prefix.len()
        invariant
            i <= prefix.len() <= v.len(),
            forall|j: int| 0 <= j < i ==> v@[j] == prefix@[j],
        decreases prefix.len() - i,
    {
        if v[i] != prefix[i] {
            assert(v@.subrange(0, prefix@.len() as int)[i as int] != prefix@[i as int]);
            return false;
        }
        i += 1;
    }
    assert(v@.subrange(0, prefix@.len() as int) =~= prefix@);
    true
}

} // verus!
