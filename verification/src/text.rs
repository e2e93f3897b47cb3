//! The text model of phrases: a phrase is split on `_` into non-empty
//! segments, and a run of segments is joined back with `_` between them.

use vstd::prelude::*;
use vstd::string::*;

verus! {

/// The separator between the word-parts of a phrase.
pub open spec fn sep() -> Seq<char> {
    seq!['_']
}

/// The non-empty segments of `s` from position `i` on, with `cur` the
/// (possibly empty) run of non-separator characters read just before `i`.
pub open spec fn segments_from(s: Seq<char>, i: int, cur: Seq<char>) -> Seq<Seq<char>>
    decreases s.len() - i,
{
    if i >= s.len() {
        if cur.len() > 0 {
            seq![cur]
        } else {
            Seq::empty()
        }
    } else if s[i] == '_' {
        if cur.len() > 0 {
            seq![cur] + segments_from(s, i + 1, Seq::empty())
        } else {
            segments_from(s, i + 1, Seq::empty())
        }
    } else {
        segments_from(s, i + 1, cur.push(s[i]))
    }
}

/// The normalized form of a phrase text: its non-empty segments, in order;
/// empty segments from leading, trailing or doubled separators are discarded.
pub open spec fn segments(s: Seq<char>) -> Seq<Seq<char>> {
    segments_from(s, 0, Seq::empty())
}

/// The segments joined back into one text, a separator between neighbours.
pub open spec fn join(parts: Seq<Seq<char>>) -> Seq<char>
    decreases parts.len(),
{
    if parts.len() == 0 {
        Seq::empty()
    } else if parts.len() == 1 {
        parts[0]
    } else {
        join(parts.drop_last()) + sep() + parts.last()
    }
}

/// Joining one more segment appends a separator and that segment.
pub proof fn lemma_join_take_unfold(parts: Seq<Seq<char>>, k: int)
    requires
        1 <= k < parts.len(),
    ensures
        join(parts.take(k + 1)) == join(parts.take(k)) + sep() + parts[k],
{
    assert(parts.take(k + 1).drop_last() =~= parts.take(k));
    assert(parts.take(k + 1).last() == parts[k]);
}

/// Every segment that splitting produces is non-empty.
pub proof fn lemma_segments_from_nonempty(s: Seq<char>, i: int, cur: Seq<char>)
    ensures
        forall|j: int|
            0 <= j < segments_from(s, i, cur).len() ==> #[trigger] segments_from(
                s,
                i,
                cur,
            )[j].len() > 0,
    decreases s.len() - i,
{
    if i >= s.len() {
    } else if s[i] == '_' {
        lemma_segments_from_nonempty(s, i + 1, Seq::empty());
        assert forall|j: int| 0 <= j < segments_from(s, i, cur).len() implies #[trigger]
        segments_from(s, i, cur)[j].len() > 0 by {
            if cur.len() > 0 {
                if j > 0 {
                    assert(segments_from(s, i, cur)[j] == segments_from(s, i + 1, Seq::empty())[j
                        - 1]);
                }
            } else {
                assert(segments_from(s, i, cur)[j] == segments_from(s, i + 1, Seq::empty())[j]);
            }
        }
    } else {
        lemma_segments_from_nonempty(s, i + 1, cur.push(s[i]));
        assert forall|j: int| 0 <= j < segments_from(s, i, cur).len() implies #[trigger]
        segments_from(s, i, cur)[j].len() > 0 by {
            assert(segments_from(s, i, cur)[j] == segments_from(s, i + 1, cur.push(s[i]))[j]);
        }
    }
}

/// Splits `phrase` on `_`, dropping empty segments.
pub fn split_segments(phrase: &str) -> (parts: Vec<String>)
    ensures
        parts@.map_values(|p: String| p@) == segments(phrase@),
{
    let n = phrase.unicode_len();
    let mut parts: Vec<String> = Vec::new();
    let mut start: usize = 0;
    let mut i: usize = 0;
    proof {
        assert(phrase@.subrange(0, 0) =~= Seq::<char>::empty());
        assert(parts@.map_values(|p: String| p@) =~= Seq::<Seq<char>>::empty());
        assert(Seq::<Seq<char>>::empty() + segments_from(phrase@, 0, Seq::<char>::empty())
            =~= segments_from(phrase@, 0, Seq::<char>::empty()));
    }
    while i < n
        invariant
            n == phrase@.len(),
            start <= i <= n,
            phrase@.subrange(start as int, i as int).len() == i - start,
            segments(phrase@) == parts@.map_values(|p: String| p@) + segments_from(
                phrase@,
                i as int,
                phrase@.subrange(start as int, i as int),
            ),
        decreases n - i,
    {
        let c = phrase.get_char(i);
        if c == '_' {
            if start < i {
                let part = phrase.substring_char(start, i).to_owned();
                let ghost old_parts = parts@;
                parts.push(part);
                proof {
                    assert(parts@.map_values(|p: String| p@) =~= old_parts.map_values(
                        |p: String| p@,
                    ).push(phrase@.subrange(start as int, i as int)));
                    assert(seq![phrase@.subrange(start as int, i as int)] + segments_from(
                        phrase@,
                        i + 1,
                        Seq::empty(),
                    ) =~= seq![phrase@.subrange(start as int, i as int)].push(
                        phrase@.subrange(start as int, i as int),
                    ).drop_first() + segments_from(phrase@, i + 1, Seq::empty()));
                    assert(old_parts.map_values(|p: String| p@).push(
                        phrase@.subrange(start as int, i as int),
                    ) + segments_from(phrase@, i + 1, Seq::empty()) =~= old_parts.map_values(
                        |p: String| p@,
                    ) + (seq![phrase@.subrange(start as int, i as int)] + segments_from(
                        phrase@,
                        i + 1,
                        Seq::empty(),
                    )));
                }
            }
            start = i + 1;
            proof {
                assert(phrase@.subrange(start as int, start as int) =~= Seq::<char>::empty());
            }
        } else {
            proof {
                assert(phrase@.subrange(start as int, i + 1) =~= phrase@.subrange(
                    start as int,
                    i as int,
                ).push(phrase@[i as int]));
            }
        }
        i = i + 1;
    }
    if start < n {
        let part = phrase.substring_char(start, n).to_owned();
        let ghost old_parts = parts@;
        parts.push(part);
        proof {
            assert(parts@.map_values(|p: String| p@) =~= old_parts.map_values(|p: String| p@).push(
                phrase@.subrange(start as int, n as int),
            ));
            assert(old_parts.map_values(|p: String| p@).push(
                phrase@.subrange(start as int, n as int),
            ) =~= old_parts.map_values(|p: String| p@) + seq![
                phrase@.subrange(start as int, n as int),
            ]);
        }
    }
    proof {
        assert(parts@.map_values(|p: String| p@) =~= segments(phrase@));
    }
    parts
}

} // verus!
