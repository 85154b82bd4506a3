//! Verified text utilities: splitting on a separator character,
//! joining, trimming, substring search and string equality. The
//! address parsers and the configuration rendering build on these.

use vstd::prelude::*;

verus! {

/// The pieces of `s` between occurrences of `sep`, in order. There is
/// always at least one piece; consecutive separators and separators at
/// either end yield empty pieces.
pub open spec fn spec_split(s: Seq<char>, sep: char) -> Seq<Seq<char>>
    decreases s.len(),
{
    if s.len() == 0 {
        seq![Seq::empty()]
    } else if s.last() == sep {
        spec_split(s.drop_last(), sep).push(Seq::empty())
    } else {
        let r = spec_split(s.drop_last(), sep);
        r.update(r.len() - 1, r.last().push(s.last()))
    }
}

/// Splitting yields at least one piece.
pub proof fn lemma_split_nonempty(s: Seq<char>, sep: char)
    ensures
        spec_split(s, sep).len() >= 1,
    decreases s.len(),
{
    if s.len() > 0 {
        lemma_split_nonempty(s.drop_last(), sep);
    }
}

/// Splits a string on a separator character.
pub fn split_char(s: &str, sep: char) -> (r: Vec<String>)
    ensures
        r@.map_values(|x: String| x@) == spec_split(s@, sep),
{
    let n = s.unicode_len();
    let mut pieces: Vec<String> = Vec::new();
    let mut start: usize = 0;
    let mut j: usize = 0;
    proof {
        assert(s@.subrange(0, 0) =~= Seq::<char>::empty());
        assert(pieces@.map_values(|x: String| x@).push(s@.subrange(0, 0)) =~= spec_split(
            s@.take(0),
            sep,
        ));
    }
    while j < n
        invariant
            n == s@.len(),
            start <= j <= n,
            pieces@.map_values(|x: String| x@).push(s@.subrange(start as int, j as int))
                =~= spec_split(s@.take(j as int), sep),
        decreases n - j,
    {
        let c = s.get_char(j);
        proof {
            assert(s@.take(j + 1int).drop_last() =~= s@.take(j as int));
            assert(s@.take(j + 1int).last() == s@[j as int]);
        }
        if c == sep {
            let piece = s.substring_char(start, j);
            let ghost prev = pieces@;
            pieces.push(String::from_str(piece));
            proof {
                assert(pieces@.map_values(|x: String| x@) =~= prev.map_values(|x: String| x@).push(
                    s@.subrange(start as int, j as int),
                ));
                assert(s@.subrange(j + 1int, j + 1int) =~= Seq::<char>::empty());
                assert(pieces@.map_values(|x: String| x@).push(
                    s@.subrange(j + 1int, j + 1int),
                ) =~= spec_split(s@.take(j + 1int), sep));
            }
            start = j + 1;
        } else {
            proof {
                let r = spec_split(s@.take(j as int), sep);
                assert(r.last() == s@.subrange(start as int, j as int));
                assert(s@.subrange(start as int, j + 1int) =~= s@.subrange(
                    start as int,
                    j as int,
                ).push(s@[j as int]));
                assert(pieces@.map_values(|x: String| x@).push(
                    s@.subrange(start as int, j + 1int),
                ) =~= spec_split(s@.take(j + 1int), sep));
            }
        }
        j += 1;
    }
    let last_piece = s.substring_char(start, n);
    let ghost prev = pieces@;
    pieces.push(String::from_str(last_piece));
    proof {
        assert(s@.take(n as int) =~= s@);
        assert(pieces@.map_values(|x: String| x@) =~= prev.map_values(|x: String| x@).push(
            s@.subrange(start as int, n as int),
        ));
        assert(pieces@.map_values(|x: String| x@) =~= spec_split(s@, sep));
    }
    pieces
}

/// The pieces joined again with the separator between them.
pub open spec fn spec_join(ps: Seq<Seq<char>>, sep: char) -> Seq<char>
    decreases ps.len(),
{
    if ps.len() == 0 {
        Seq::empty()
    } else if ps.len() == 1 {
        ps[0]
    } else {
        spec_join(ps.drop_last(), sep) + seq![sep] + ps.last()
    }
}

/// Joins the pieces with a newline between them.
pub fn join_newlines(pieces: &Vec<String>) -> (r: String)
    ensures
        r@ == spec_join(pieces@.map_values(|x: String| x@), '\n'),
{
    let ghost ps = pieces@.map_values(|x: String| x@);
    let n = pieces.len();
    let mut acc = String::new();
    let mut j: usize = 0;
    while j < n
        invariant
            n == pieces@.len(),
            j <= n,
            ps == pieces@.map_values(|x: String| x@),
            acc@ == spec_join(ps.take(j as int), '\n'),
        decreases n - j,
    {
        if j > 0 {
            acc.append("\n");
        }
        acc.append(pieces[j].as_str());
        proof {
            reveal_strlit("\n");
            assert(ps.take(j + 1int).drop_last() =~= ps.take(j as int));
            assert(ps.take(j + 1int).last() == ps[j as int]);
            if j > 0 {
                assert(acc@ =~= spec_join(ps.take(j as int), '\n') + seq!['\n'] + ps[j as int]);
            } else {
                assert(acc@ =~= ps[0]);
            }
        }
        j += 1;
    }
    proof {
        assert(ps.take(n as int) =~= ps);
    }
    acc
}

/// The whitespace forms trimmed from configuration lines and command
/// output: space, tab, carriage return and newline.
pub open spec fn is_space(c: char) -> bool {
    c == ' ' || c == '\t' || c == '\r' || c == '\n'
}

/// `s` without leading whitespace.
pub open spec fn spec_trim_front(s: Seq<char>) -> Seq<char>
    decreases s.len(),
{
    if s.len() > 0 && is_space(s[0]) {
        spec_trim_front(s.drop_first())
    } else {
        s
    }
}

/// `s` without trailing whitespace.
pub open spec fn spec_trim_back(s: Seq<char>) -> Seq<char>
    decreases s.len(),
{
    if s.len() > 0 && is_space(s.last()) {
        spec_trim_back(s.drop_last())
    } else {
        s
    }
}

/// `s` without leading and trailing whitespace.
pub open spec fn spec_trim(s: Seq<char>) -> Seq<char> {
    spec_trim_back(spec_trim_front(s))
}

fn trim_front(s: &str) -> (r: &str)
    ensures
        r@ == spec_trim_front(s@),
    decreases s@.len(),
{
    let n = s.unicode_len();
    if n > 0 {
        let c = s.get_char(0);
        if c == ' ' || c == '\t' || c == '\r' || c == '\n' {
            let rest = s.substring_char(1, n);
            proof {
                assert(rest@ =~= s@.drop_first());
            }
            return trim_front(rest);
        }
    }
    s
}

fn trim_back(s: &str) -> (r: &str)
    ensures
        r@ == spec_trim_back(s@),
    decreases s@.len(),
{
    let n = s.unicode_len();
    if n > 0 {
        let c = s.get_char(n - 1);
        if c == ' ' || c == '\t' || c == '\r' || c == '\n' {
            let rest = s.substring_char(0, n - 1);
            proof {
                assert(rest@ =~= s@.drop_last());
            }
            return trim_back(rest);
        }
    }
    s
}

/// Removes leading and trailing whitespace.
pub fn trim_str(s: &str) -> (r: &str)
    ensures
        r@ == spec_trim(s@),
{
    trim_back(trim_front(s))
}

/// Whether the two strings read the same.
pub fn str_eq(a: &str, b: &str) -> (r: bool)
    ensures
        r == (a@ == b@),
{
    let sa = String::from_str(a);
    let sb = String::from_str(b);
    sa == sb
}

/// `needle` occurs contiguously somewhere in `hay`.
pub open spec fn contains_seq(hay: Seq<char>, needle: Seq<char>) -> bool {
    exists|k: int|
        0 <= k && k + needle.len() <= hay.len() && #[trigger] hay.subrange(k, k + needle.len())
            == needle
}

/// Whether `needle` matches `hay` starting at position `k`.
fn matches_at(hay: &str, needle: &str, k: usize) -> (r: bool)
    requires
        k + needle@.len() <= hay@.len(),
    ensures
        r == (hay@.subrange(k as int, k + needle@.len()) == needle@),
{
    let hn = hay.unicode_len();
    let m = needle.unicode_len();
    let mut j: usize = 0;
    while j < m
        invariant
            hn == hay@.len(),
            m == needle@.len(),
            k + m <= hay@.len(),
            j <= m,
            forall|p: int| 0 <= p < j ==> hay@[k + p] == needle@[p],
        decreases m - j,
    {
        if hay.get_char(k + j) != needle.get_char(j) {
            proof {
                assert(hay@.subrange(k as int, k + needle@.len())[j as int] != needle@[j as int]);
            }
            return false;
        }
        j += 1;
    }
    proof {
        assert(hay@.subrange(k as int, k + needle@.len()) =~= needle@);
    }
    true
}

/// Substring search.
pub fn contains_str(hay: &str, needle: &str) -> (r: bool)
    ensures
        r == contains_seq(hay@, needle@),
{
    let hn = hay.unicode_len();
    let nn = needle.unicode_len();
    if nn > hn {
        proof {
            assert(!contains_seq(hay@, needle@));
        }
        return false;
    }
    if nn == 0 {
        proof {
            assert(hay@.subrange(0, 0 + needle@.len() as int) =~= needle@);
            assert(contains_seq(hay@, needle@));
        }
        return true;
    }
    let mut k: usize = 0;
    while k <= hn - nn
        invariant
            hn == hay@.len(),
            nn == needle@.len(),
            1 <= nn <= hn,
            k <= hn - nn + 1,
            forall|p: int|
                0 <= p < k ==> #[trigger] hay@.subrange(p, p + needle@.len()) != needle@,
        decreases hn - nn + 1 - k,
    {
        if matches_at(hay, needle, k) {
            proof {
                assert(contains_seq(hay@, needle@));
            }
            return true;
        }
        k += 1;
    }
    proof {
        assert(!contains_seq(hay@, needle@));
    }
    false
}

} // verus!
