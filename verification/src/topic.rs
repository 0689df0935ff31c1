//! Topics: colon-delimited hierarchical names with a `*` wildcard in
//! patterns.

use vstd::prelude::*;
use crate::json::str_chars;

verus! {

/// A topic string such as `room:lobby`. The same type names a concrete
/// topic and a registration pattern.
#[derive(Debug, PartialEq, Eq, Hash)]
pub struct Topic(pub String);

impl View for Topic {
    type V = Seq<char>;

    open spec fn view(&self) -> Seq<char> {
        self.0@
    }
}

impl Clone for Topic {
    fn clone(&self) -> (res: Self)
        ensures
            res == *self,
    {
        Topic(self.0.clone())
    }
}

/// The index of the first `:` in `s`, or `s.len()` if there is none.
pub open spec fn first_colon(s: Seq<char>) -> int
    decreases s.len(),
{
    if s.len() == 0 {
        0
    } else if s[0] == ':' {
        0
    } else {
        1 + first_colon(s.drop_first())
    }
}

/// The first colon lies between the start and the end of the text; the
/// characters before it are not colons; it points at a colon when it is
/// not the end.
pub proof fn lemma_first_colon(s: Seq<char>)
    ensures
        0 <= first_colon(s) <= s.len(),
        forall|j: int| 0 <= j < first_colon(s) ==> s[j] != ':',
        first_colon(s) < s.len() ==> s[first_colon(s)] == ':',
    decreases s.len(),
{
    if s.len() > 0 && s[0] != ':' {
        lemma_first_colon(s.drop_first());
        assert forall|j: int| 0 <= j < first_colon(s) implies s[j] != ':' by {
            if j > 0 {
                assert(s[j] == s.drop_first()[j - 1]);
            }
        }
    }
}

/// The segments of a topic, split on `:`. The empty text has one empty
/// segment, as `str::split` gives.
pub open spec fn colon_split(s: Seq<char>) -> Seq<Seq<char>>
    decreases s.len(),
    via colon_split_decreases
{
    let i = first_colon(s);
    if i == s.len() {
        seq![s]
    } else {
        seq![s.take(i)] + colon_split(s.skip(i + 1))
    }
}

#[via_fn]
proof fn colon_split_decreases(s: Seq<char>) {
    lemma_first_colon(s);
}

/// Pattern segments against topic segments: a `*` segment matches
/// everything from there on; otherwise segments must agree pairwise and
/// both sides must end together.
pub open spec fn match_segments(p: Seq<Seq<char>>, t: Seq<Seq<char>>) -> bool
    decreases p.len(),
{
    if p.len() == 0 {
        t.len() == 0
    } else if p[0] == seq!['*'] {
        true
    } else if t.len() == 0 {
        false
    } else if p[0] == t[0] {
        match_segments(p.drop_first(), t.drop_first())
    } else {
        false
    }
}

/// Whether the pattern matches the topic.
pub open spec fn spec_is_match(pattern: Seq<char>, topic: Seq<char>) -> bool {
    match_segments(colon_split(pattern), colon_split(topic))
}

/// The segment texts of a list of segment buffers.
pub open spec fn seg_views(v: Seq<Vec<char>>) -> Seq<Seq<char>> {
    v.map(|i: int, x: Vec<char>| x@)
}

/// Finds the first colon in a character slice.
fn find_colon(s: &[char]) -> (i: usize)
    ensures
        i as int == first_colon(s@),
        i <= s@.len(),
{
    let mut i: usize = 0;
    while i < s.len() && s[i] != ':'
        invariant
            i <= s@.len(),
            forall|j: int| 0 <= j < i ==> s@[j] != ':',
        decreases s@.len() - i,
    {
        i = i + 1;
    }
    proof {
        lemma_first_colon_index(s@, i as int);
    }
    i
}

proof fn lemma_first_colon_index(s: Seq<char>, i: int)
    requires
        0 <= i <= s.len(),
        forall|j: int| 0 <= j < i ==> s[j] != ':',
        i == s.len() || s[i] == ':',
    ensures
        first_colon(s) == i,
    decreases i,
{
    if i > 0 {
        lemma_first_colon_index(s.drop_first(), i - 1);
    }
}

/// Copies a character slice into a vector.
fn segment_of(s: &[char]) -> (r: Vec<char>)
    ensures
        r@ == s@,
{
    let mut r: Vec<char> = Vec::new();
    let mut i: usize = 0;
    while i < s.len()
        invariant
            i <= s@.len(),
            r@ == s@.take(i as int),
        decreases s@.len() - i,
    {
        proof {
            assert(s@.take(i as int).push(s@[i as int]) =~= s@.take(i as int + 1));
        }
        r.push(s[i]);
        i = i + 1;
    }
    proof {
        assert(s@.take(s@.len() as int) =~= s@);
    }
    r
}

/// Splits a topic's characters on `:`.
fn split_segments(s: &[char]) -> (r: Vec<Vec<char>>)
    ensures
        seg_views(r@) == colon_split(s@),
    decreases s@.len(),
{
    proof {
        lemma_first_colon(s@);
    }
    let i = find_colon(s);
    if i == s.len() {
        let mut r: Vec<Vec<char>> = Vec::new();
        r.push(segment_of(s));
        proof {
            assert(seg_views(r@) =~= seq![s@]);
        }
        r
    } else {
        let tail = &s[i + 1..s.len()];
        proof {
            assert(s@.subrange(i + 1, s@.len() as int) =~= s@.skip(i + 1));
        }
        let mut rest = split_segments(tail);
        let head = segment_of(&s[0..i]);
        proof {
            assert(s@.subrange(0, i as int) =~= s@.take(i as int));
        }
        rest.insert(0, head);
        proof {
            assert(seg_views(rest@) =~= seq![s@.take(i as int)] + colon_split(s@.skip(i + 1)));
        }
        rest
    }
}

/// Compares two character buffers.
fn chars_eq(a: &Vec<char>, b: &Vec<char>) -> (r: bool)
    ensures
        r == (a@ == b@),
{
    if a.len() != b.len() {
        proof {
            assert(a@ != b@);
        }
        return false;
    }
    let mut i: usize = 0;
    while i < a.len()
        invariant
            a@.len() == b@.len(),
            i <= a@.len(),
            forall|j: int| 0 <= j < i ==> a@[j] == b@[j],
        decreases a@.len() - i,
    {
        if a[i] != b[i] {
            return false;
        }
        i = i + 1;
    }
    proof {
        assert(a@ =~= b@);
    }
    true
}

impl Topic {
    /// Wraps a string as a topic.
    pub fn from(s: &str) -> (r: Topic)
        ensures
            r@ == s@,
    {
        Topic(s.to_owned())
    }

    /// The topic's text.
    pub fn as_str(&self) -> (r: &str)
        ensures
            r@ == self@,
    {
        self.0.as_str()
    }

    /// Whether this pattern matches the given topic. Segments are
    /// compared pairwise on `:`; a `*` segment in the pattern matches
    /// everything from there on.
    pub fn is_match(&self, other: &Topic) -> (r: bool)
        ensures
            r == spec_is_match(self@, other@),
    {
        let p_chars = str_chars(self.0.as_str());
        let t_chars = str_chars(other.0.as_str());
        let p_segs = split_segments(p_chars.as_slice());
        let t_segs = split_segments(t_chars.as_slice());
        let ghost p_model = seg_views(p_segs@);
        let ghost t_model = seg_views(t_segs@);
        let star: Vec<char> = vec!['*'];
        proof {
            assert(star@ =~= seq!['*']);
        }
        proof {
            assert(p_model.skip(0) =~= p_model);
            assert(t_model.skip(0) =~= t_model);
        }
        let mut i: usize = 0;
        loop
            invariant
                i <= p_segs@.len(),
                i <= t_segs@.len(),
                p_model == seg_views(p_segs@),
                t_model == seg_views(t_segs@),
                star@ == seq!['*'],
                spec_is_match(self@, other@) == match_segments(
                    p_model.skip(i as int),
                    t_model.skip(i as int),
                ),
            decreases p_segs@.len() - i,
        {
            if i == p_segs.len() {
                proof {
                    assert(p_model.skip(i as int).len() == 0);
                }
                return i == t_segs.len();
            }
            proof {
                assert(p_model.skip(i as int)[0] == p_model[i as int]);
            }
            if chars_eq(&p_segs[i], &star) {
                return true;
            }
            if i == t_segs.len() {
                proof {
                    assert(t_model.skip(i as int).len() == 0);
                }
                return false;
            }
            proof {
                assert(t_model.skip(i as int)[0] == t_model[i as int]);
            }
            if !chars_eq(&p_segs[i], &t_segs[i]) {
                return false;
            }
            proof {
                assert(p_model.skip(i as int).drop_first() =~= p_model.skip(i as int + 1));
                assert(t_model.skip(i as int).drop_first() =~= t_model.skip(i as int + 1));
            }
            i = i + 1;
        }
    }
}

/// A pattern of the shape `a:*` matches every topic that starts with
/// `a:`, whatever follows.
pub proof fn lemma_wildcard_match(t: Seq<char>)
    requires
        t.len() >= 2,
        t[0] == 'a',
        t[1] == ':',
    ensures
        spec_is_match(seq!['a', ':', '*'], t),
{
    let p: Seq<char> = seq!['a', ':', '*'];
    assert(p.drop_first() =~= seq![':', '*']);
    assert(first_colon(seq![':', '*']) == 0);
    assert(first_colon(p) == 1);
    assert(p.skip(2) =~= seq!['*']);
    assert(seq!['*'].drop_first() =~= Seq::<char>::empty());
    assert(first_colon(Seq::<char>::empty()) == 0);
    assert(first_colon(seq!['*']) == 1);
    assert(colon_split(seq!['*']) =~= seq![seq!['*']]);
    assert(p.take(1) =~= seq!['a']);
    assert(colon_split(p) =~= seq![seq!['a'], seq!['*']]);
    assert(t.drop_first()[0] == ':');
    assert(first_colon(t.drop_first()) == 0);
    assert(first_colon(t) == 1);
    assert(t.take(1) =~= seq!['a']);
    assert(colon_split(t) == seq![t.take(1)] + colon_split(t.skip(2)));
    let ts = colon_split(t);
    assert(ts[0] == t.take(1));
    let ps = colon_split(p);
    assert(ps[0] == ts[0]);
    assert(ps.drop_first() =~= seq![seq!['*']]);
    assert(match_segments(ps.drop_first(), ts.drop_first()));
}

} // verus!
