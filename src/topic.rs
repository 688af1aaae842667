//! Hierarchical topic patterns: segments separated by `/`, where a `+`
//! segment stands for exactly one topic segment and a final `#` segment for
//! any number of trailing ones.

use vstd::prelude::*;
use vstd::string::*;
use crate::text::split_on;

verus! {

pub open spec fn single_wildcard() -> Seq<char> {
    seq!['+']
}

pub open spec fn multi_wildcard() -> Seq<char> {
    seq!['#']
}

/// Whether topic segments `t` match pattern segments `f`, read left to
/// right: `#` ends the match successfully, `+` consumes one segment, any
/// other pattern segment must equal the topic segment; a topic segment `#`
/// never matches.
pub open spec fn segments_match(t: Seq<Seq<char>>, f: Seq<Seq<char>>) -> bool
    decreases f.len(),
{
    if f.len() == 0 {
        t.len() == 0
    } else if f[0] == multi_wildcard() {
        true
    } else if t.len() == 0 || t[0] == multi_wildcard() {
        false
    } else if f[0] == single_wildcard() || f[0] == t[0] {
        segments_match(t.drop_first(), f.drop_first())
    } else {
        false
    }
}

/// Whether `topic` matches `pattern`, segment by segment.
pub open spec fn topic_matches_spec(topic: Seq<char>, pattern: Seq<char>) -> bool {
    segments_match(split_on(topic, '/'), split_on(pattern, '/'))
}

/// What the transport's matcher answers: no match for a topic starting
/// with `$`, else the segment-by-segment match.
pub open spec fn transport_matches(topic: Seq<char>, pattern: Seq<char>) -> bool {
    !(topic.len() > 0 && topic[0] == '$') && topic_matches_spec(topic, pattern)
}

/// A topic on which the transport's matcher can be asked: empty, or with an
/// ASCII first character.
pub open spec fn matchable_topic(topic: Seq<char>) -> bool {
    topic.len() == 0 || (topic[0] as u32) < 128
}

/// Relies on rumqttc::matches: it rejects a topic whose first byte is `$`,
/// then walks the `/`-separated segments of topic and filter as
/// `segments_match` states. It slices the topic's first byte, so the first
/// character must be ASCII.
#[verifier::external_body]
fn mqtt_matches(topic: &str, pattern: &str) -> (r: bool)
    requires
        matchable_topic(topic@),
    ensures
        r == transport_matches(topic@, pattern@),
{
    rumqttc::matches(topic, pattern)
}

/// The shared segment put in front of topic and pattern when the topic
/// cannot be handed to the matcher as it is.
pub open spec fn guard_prefix() -> Seq<char> {
    seq!['x', '/']
}

/// Putting `x/` in front of a string puts the segment `x` in front of its
/// pieces.
proof fn lemma_split_guarded(s: Seq<char>)
    ensures
        split_on(guard_prefix() + s, '/') == seq![seq!['x']] + split_on(s, '/'),
    decreases s.len(),
{
    let g = guard_prefix() + s;
    if s.len() == 0 {
        assert(g =~= seq!['x', '/']);
        assert(g.drop_last() =~= seq!['x']);
        assert(seq!['x'].drop_last() =~= Seq::<char>::empty());
        assert(seq!['x'].last() == 'x');
        assert(split_on(Seq::<char>::empty(), '/') == seq![Seq::<char>::empty()]);
        assert(Seq::<char>::empty().push('x') =~= seq!['x']);
        assert(seq![Seq::<char>::empty()].update(0, Seq::<char>::empty().push('x')) =~= seq![seq!['x']]);
        assert(split_on(seq!['x'], '/') =~= seq![seq!['x']]);
        assert(split_on(s, '/') =~= seq![Seq::<char>::empty()]);
        assert(split_on(g, '/') =~= seq![seq!['x']] + split_on(s, '/'));
    } else {
        assert(g.drop_last() =~= guard_prefix() + s.drop_last());
        assert(g.last() == s.last());
        lemma_split_guarded(s.drop_last());
        crate::text::lemma_split_nonempty(s.drop_last(), '/');
        let a = split_on(s.drop_last(), '/');
        if s.last() == '/' {
            assert((seq![seq!['x']] + a).push(Seq::empty()) =~= seq![seq!['x']] + a.push(
                Seq::empty(),
            ));
        } else {
            let b = seq![seq!['x']] + a;
            assert(b.update(b.len() - 1, b.last().push(s.last())) =~= seq![seq!['x']] + a.update(
                a.len() - 1,
                a.last().push(s.last()),
            ));
        }
    }
}

/// Whether `topic` matches `pattern`.
pub fn topic_matches(topic: &str, pattern: &str) -> (r: bool)
    ensures
        r == topic_matches_spec(topic@, pattern@),
{
    let n = topic.unicode_len();
    if n > 0 {
        let c = topic.get_char(0);
        if (c as u32) >= 128 || c == '$' {
            // The matcher slices the topic's first byte and turns away
            // topics that start with `$`; a common literal first segment on
            // both sides avoids both and leaves the segment match as it was.
            let mut t = "x/".to_owned();
            t.append(topic);
            let mut p = "x/".to_owned();
            p.append(pattern);
            proof {
                reveal_strlit("x/");
                assert(t@ == guard_prefix() + topic@);
                assert(p@ == guard_prefix() + pattern@);
                lemma_split_guarded(topic@);
                lemma_split_guarded(pattern@);
                let lit = seq![seq!['x']];
                assert(literal_segments(lit)) by {
                    assert(lit[0][0] == 'x');
                }
                lemma_common_prefix(lit, split_on(topic@, '/'), split_on(pattern@, '/'));
            }
            return mqtt_matches(t.as_str(), p.as_str());
        }
    }
    mqtt_matches(topic, pattern)
}

/// A segment that holds no wildcard.
pub open spec fn literal_segment(s: Seq<char>) -> bool {
    s != single_wildcard() && s != multi_wildcard()
}

pub open spec fn literal_segments(s: Seq<Seq<char>>) -> bool {
    forall|i: int| 0 <= i < s.len() ==> literal_segment(#[trigger] s[i])
}

/// A pattern made only of literal segments matches exactly the topic with
/// the same segments.
pub proof fn lemma_literal_match(t: Seq<Seq<char>>, f: Seq<Seq<char>>)
    requires
        literal_segments(f),
    ensures
        segments_match(t, f) <==> t == f,
    decreases f.len(),
{
    if f.len() == 0 {
        if t.len() == 0 {
            assert(t =~= f);
        }
    } else {
        assert(literal_segment(f[0]));
        if t.len() > 0 {
            assert(literal_segments(f.drop_first())) by {
                assert forall|i: int| 0 <= i < f.drop_first().len() implies literal_segment(
                    #[trigger] f.drop_first()[i],
                ) by {
                    assert(f.drop_first()[i] == f[i + 1]);
                }
            }
            lemma_literal_match(t.drop_first(), f.drop_first());
            if t == f {
                assert(t.drop_first() =~= f.drop_first());
            }
            if t[0] == f[0] && t.drop_first() == f.drop_first() {
                assert(t =~= seq![t[0]] + t.drop_first());
                assert(f =~= seq![f[0]] + f.drop_first());
            }
        }
    }
}

/// Literal segments match themselves, whatever follows in the pattern:
/// matching `pre + t` against `pre + f` is matching `t` against `f`.
proof fn lemma_common_prefix(pre: Seq<Seq<char>>, t: Seq<Seq<char>>, f: Seq<Seq<char>>)
    requires
        literal_segments(pre),
    ensures
        segments_match(pre + t, pre + f) == segments_match(t, f),
    decreases pre.len(),
{
    if pre.len() > 0 {
        let rest = pre.drop_first();
        assert(literal_segments(rest)) by {
            assert forall|i: int| 0 <= i < rest.len() implies literal_segment(#[trigger] rest[i]) by {
                assert(rest[i] == pre[i + 1]);
            }
        }
        assert(literal_segment(pre[0]));
        assert((pre + t).drop_first() =~= rest + t);
        assert((pre + f).drop_first() =~= rest + f);
        lemma_common_prefix(rest, t, f);
    } else {
        assert(pre + t =~= t);
        assert(pre + f =~= f);
    }
}

/// A `+` segment between literal segments accepts any single topic segment
/// in its place (other than `#`), and never two segments in its place.
pub proof fn lemma_single_wildcard(
    pre: Seq<Seq<char>>,
    post: Seq<Seq<char>>,
    seg: Seq<char>,
    seg2: Seq<char>,
)
    requires
        literal_segments(pre),
        literal_segments(post),
        seg != multi_wildcard(),
        seg2 != multi_wildcard(),
    ensures
        segments_match(pre + seq![seg] + post, pre + seq![single_wildcard()] + post),
        !segments_match(pre + seq![seg, seg2] + post, pre + seq![single_wildcard()] + post),
{
    let f = seq![single_wildcard()] + post;
    assert(single_wildcard()[0] != multi_wildcard()[0]);
    let t1 = seq![seg] + post;
    let t2 = seq![seg, seg2] + post;
    assert(pre + seq![seg] + post =~= pre + t1);
    assert(pre + seq![seg, seg2] + post =~= pre + t2);
    assert(pre + seq![single_wildcard()] + post =~= pre + f);
    lemma_common_prefix(pre, t1, f);
    lemma_common_prefix(pre, t2, f);
    assert(f.drop_first() =~= post);
    assert(t1.drop_first() =~= post);
    assert(t2.drop_first() =~= seq![seg2] + post);
    lemma_literal_match(post, post);
    lemma_literal_match(seq![seg2] + post, post);
    assert((seq![seg2] + post).len() != post.len());
    assert(f[0] == single_wildcard() && t2[0] == seg);
    assert(segments_match(t2, f) == segments_match(t2.drop_first(), f.drop_first()));
}

/// A final `#` after literal segments accepts any number of trailing topic
/// segments, none included.
pub proof fn lemma_multi_wildcard(pre: Seq<Seq<char>>, tail: Seq<Seq<char>>)
    requires
        literal_segments(pre),
    ensures
        segments_match(pre + tail, pre + seq![multi_wildcard()]),
{
    lemma_common_prefix(pre, tail, seq![multi_wildcard()]);
}

} // verus!
