//! Splitting strings at a separator character.

use vstd::prelude::*;
use vstd::string::*;

verus! {

/// The pieces of `s` between occurrences of `sep`, in order; `s` with no
/// separator is one piece, and the empty string is one empty piece.
pub open spec fn split_on(s: Seq<char>, sep: char) -> Seq<Seq<char>>
    decreases s.len(),
{
    if s.len() == 0 {
        seq![Seq::empty()]
    } else {
        let init = split_on(s.drop_last(), sep);
        if s.last() == sep {
            init.push(Seq::empty())
        } else {
            init.update(init.len() - 1, init.last().push(s.last()))
        }
    }
}

pub proof fn lemma_split_nonempty(s: Seq<char>, sep: char)
    ensures
        split_on(s, sep).len() >= 1,
    decreases s.len(),
{
    if s.len() > 0 {
        lemma_split_nonempty(s.drop_last(), sep);
    }
}

/// Splits `s` at every occurrence of `sep`.
pub fn split_string(s: &str, sep: char) -> (r: Vec<String>)
    ensures
        r@.map_values(|p: String| p@) == split_on(s@, sep),
{
    let n = s.unicode_len();
    let mut parts: Vec<String> = Vec::new();
    let mut start: usize = 0;
    let mut i: usize = 0;
    proof {
        assert(s@.subrange(0, 0) =~= Seq::<char>::empty());
        assert(parts@.map_values(|p: String| p@).push(s@.subrange(0, 0)) =~= seq![Seq::<char>::empty()]);
    }
    while i < n
        invariant
            n == s@.len(),
            start <= i <= n,
            split_on(s@.subrange(0, i as int), sep) == parts@.map_values(|p: String| p@).push(
                s@.subrange(start as int, i as int),
            ),
        decreases n - i,
    {
        let c = s.get_char(i);
        let ghost prev = split_on(s@.subrange(0, i as int), sep);
        let ghost before = parts@.map_values(|p: String| p@);
        proof {
            assert(s@.subrange(0, i + 1).drop_last() =~= s@.subrange(0, i as int));
            assert(s@.subrange(0, i + 1).last() == c);
            assert(split_on(s@.subrange(0, i + 1), sep) == if c == sep {
                prev.push(Seq::empty())
            } else {
                prev.update(prev.len() - 1, prev.last().push(c))
            });
        }
        if c == sep {
            let piece = s.substring_char(start, i).to_string();
            parts.push(piece);
            proof {
                assert(parts@.map_values(|p: String| p@) =~= before.push(
                    s@.subrange(start as int, i as int),
                ));
                assert(s@.subrange(i + 1, i + 1) =~= Seq::<char>::empty());
            }
            start = i + 1;
        } else {
            proof {
                assert(s@.subrange(start as int, i + 1) =~= s@.subrange(start as int, i as int).push(c));
                assert(prev.update(prev.len() - 1, prev.last().push(c)) =~= before.push(
                    s@.subrange(start as int, i + 1),
                ));
            }
        }
        i = i + 1;
        proof {
            assert(split_on(s@.subrange(0, i as int), sep) =~= parts@.map_values(|p: String| p@).push(
                s@.subrange(start as int, i as int),
            ));
        }
    }
    let last = s.substring_char(start, n).to_string();
    parts.push(last);
    proof {
        assert(s@.subrange(0, n as int) =~= s@);
        assert(parts@.map_values(|p: String| p@) =~= split_on(s@, sep));
    }
    parts
}

} // verus!
