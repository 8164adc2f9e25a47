use vstd::prelude::*;
use crate::error::NessieError;
use crate::models::ContentKey;

verus! {

/// The character that separates the segments of a flattened key.
pub open spec fn sep() -> char {
    '.'
}

/// The segments of `segs` joined with the separator.
pub open spec fn join_segments(segs: Seq<Seq<char>>) -> Seq<char>
    decreases segs.len(),
{
    if segs.len() == 0 {
        seq![]
    } else if segs.len() == 1 {
        segs[0]
    } else {
        join_segments(segs.drop_last()) + seq![sep()] + segs.last()
    }
}

/// `s` cut at every separator; always at least one segment.
pub open spec fn split_segments(s: Seq<char>) -> Seq<Seq<char>>
    decreases s.len(),
{
    if s.len() == 0 {
        seq![seq![]]
    } else {
        let rest = split_segments(s.drop_last());
        if s.last() == sep() {
            rest.push(seq![])
        } else {
            rest.update(rest.len() - 1, rest.last().push(s.last()))
        }
    }
}

/// A segment that may stand in a key.
pub open spec fn valid_segment(seg: Seq<char>) -> bool {
    !seg.contains(sep())
}

/// A key that survives flattening: non-empty, no segment holds a separator.
pub open spec fn valid_key(k: Seq<Seq<char>>) -> bool {
    &&& k.len() >= 1
    &&& forall|i: int| 0 <= i < k.len() ==> valid_segment(#[trigger] k[i])
}

proof fn lemma_split_len(s: Seq<char>)
    ensures
        split_segments(s).len() >= 1,
    decreases s.len(),
{
    if s.len() > 0 {
        lemma_split_len(s.drop_last());
    }
}

/// Appending separator-free text extends the last segment.
proof fn lemma_split_append_plain(a: Seq<char>, b: Seq<char>)
    requires
        valid_segment(b),
    ensures
        split_segments(a + b).len() == split_segments(a).len(),
        split_segments(a + b) == split_segments(a).update(
            split_segments(a).len() - 1,
            split_segments(a).last() + b,
        ),
    decreases b.len(),
{
    lemma_split_len(a);
    if b.len() == 0 {
        assert(a + b =~= a);
        assert(split_segments(a).last() + b =~= split_segments(a).last());
        assert(split_segments(a).update(split_segments(a).len() - 1, split_segments(a).last())
            =~= split_segments(a));
    } else {
        let b0 = b.drop_last();
        assert(!b0.contains(sep())) by {
            if b0.contains(sep()) {
                let j = choose|j: int| 0 <= j < b0.len() && b0[j] == sep();
                assert(b[j] == sep());
            }
        };
        lemma_split_append_plain(a, b0);
        assert((a + b).drop_last() =~= a + b0);
        assert((a + b).last() == b.last());
        assert(b.last() != sep()) by {
            assert(b[b.len() - 1] == b.last());
        };
        let sa = split_segments(a);
        let rest = split_segments((a + b).drop_last());
        assert(rest == sa.update(sa.len() - 1, sa.last() + b0));
        assert(rest.len() == sa.len());
        assert(rest.last() == sa.last() + b0);
        assert(split_segments(a + b) == rest.update(rest.len() - 1, rest.last().push(b.last())));
        assert(sa.last() + b0 + seq![b.last()] =~= sa.last() + b);
        assert(rest.last().push(b.last()) =~= sa.last() + b);
        assert(split_segments(a + b) =~= sa.update(sa.len() - 1, sa.last() + b));
    }
}

/// Splitting a joined, valid key gives the key back.
proof fn lemma_split_join(k: Seq<Seq<char>>)
    requires
        valid_key(k),
    ensures
        split_segments(join_segments(k)) == k,
    decreases k.len(),
{
    if k.len() == 1 {
        lemma_split_append_plain(seq![], k[0]);
        assert(seq![] + k[0] =~= k[0]);
        assert(split_segments(seq![]) =~= seq![seq![]]);
        assert(seq![] + k[0] =~= k[0]);
        assert(split_segments(join_segments(k)) =~= k);
    } else {
        let init = k.drop_last();
        assert(valid_key(init)) by {
            assert forall|i: int| 0 <= i < init.len() implies valid_segment(#[trigger] init[i]) by {
                assert(init[i] == k[i]);
            };
        };
        lemma_split_join(init);
        let j = join_segments(init);
        let jd = j + seq![sep()];
        assert(jd.drop_last() =~= j);
        assert(split_segments(jd) == split_segments(j).push(seq![]));
        assert(valid_segment(k[k.len() - 1]));
        lemma_split_append_plain(jd, k.last());
        assert(seq![] + k.last() =~= k.last());
        assert(split_segments(join_segments(k)) =~= k);
    }
}

/// Flattening then parsing any key whose segments hold no separator gives
/// back the same key.
pub proof fn lemma_parse_flatten_round_trip(k: Seq<Seq<char>>)
    requires
        valid_key(k),
    ensures
        split_segments(join_segments(k)) == k,
{
    lemma_split_join(k);
}

/// Extending the last segment extends the joined text by the same amount.
proof fn lemma_join_extend_last(segs: Seq<Seq<char>>, y: Seq<char>)
    requires
        segs.len() >= 1,
    ensures
        join_segments(segs.update(segs.len() - 1, segs.last() + y)) == join_segments(segs) + y,
{
    let t = segs.update(segs.len() - 1, segs.last() + y);
    if segs.len() == 1 {
        assert(t[0] == segs[0] + y);
    } else {
        assert(t.drop_last() =~= segs.drop_last());
        assert(t.last() == segs.last() + y);
        assert(join_segments(t) =~= join_segments(segs) + y);
    }
}

/// Parsing any text and flattening the key gives the text back.
pub proof fn lemma_flatten_parse_round_trip(s: Seq<char>)
    ensures
        join_segments(split_segments(s)) == s,
    decreases s.len(),
{
    if s.len() == 0 {
        assert(join_segments(seq![seq![]]) == Seq::<char>::empty());
        assert(s =~= Seq::<char>::empty());
    } else {
        let init = s.drop_last();
        lemma_flatten_parse_round_trip(init);
        lemma_split_len(init);
        let rest = split_segments(init);
        if s.last() == sep() {
            let t = rest.push(seq![]);
            assert(t.drop_last() =~= rest);
            assert(join_segments(t) == join_segments(rest) + seq![sep()] + seq![]);
            assert(join_segments(t) =~= s);
        } else {
            assert(rest.last().push(s.last()) =~= rest.last() + seq![s.last()]);
            lemma_join_extend_last(rest, seq![s.last()]);
            assert(init + seq![s.last()] =~= s);
        }
    }
}

/// Whether `s` holds the separator.
fn has_separator(s: &String) -> (r: bool)
    ensures
        r == s@.contains(sep()),
{
    let st = s.as_str();
    let n = st.unicode_len();
    let mut i: usize = 0;
    while i < n
        invariant
            n == s@.len(),
            st@ == s@,
            i <= n,
            forall|j: int| 0 <= j < i ==> s@[j] != sep(),
        decreases n - i,
    {
        if st.get_char(i) == '.' {
            return true;
        }
        i = i + 1;
    }
    false
}

impl ContentKey {
    /// A key from its segments; rejects an empty list and any segment that
    /// holds the separator.
    pub fn new(elements: Vec<String>) -> (r: Result<ContentKey, NessieError>)
        ensures
            r is Ok <==> valid_key(elements@.map_values(|s: String| s@)),
            r is Ok ==> r->Ok_0.elements@ == elements@,
            r is Err ==> r->Err_0 is Validation,
    {
        let ghost view = elements@.map_values(|s: String| s@);
        if elements.len() == 0 {
            return Err(NessieError::Validation(String::from_str("a key needs at least one segment")));
        }
        let mut i: usize = 0;
        while i < elements.len()
            invariant
                view == elements@.map_values(|s: String| s@),
                i <= elements.len(),
                forall|j: int| 0 <= j < i ==> valid_segment(#[trigger] view[j]),
            decreases elements.len() - i,
        {
            if has_separator(&elements[i]) {
                assert(!valid_segment(view[i as int]));
                return Err(NessieError::Validation(String::from_str("a key segment holds a '.'")));
            }
            i = i + 1;
        }
        Ok(ContentKey { elements })
    }

    /// A copy of the key.
    pub fn copy_key(&self) -> (r: ContentKey)
        ensures
            r@ == self@,
            r.elements@ == self.elements@,
    {
        let mut v: Vec<String> = Vec::new();
        let mut i: usize = 0;
        while i < self.elements.len()
            invariant
                i <= self.elements.len(),
                v@ == self.elements@.take(i as int),
            decreases self.elements.len() - i,
        {
            v.push(self.elements[i].clone());
            i = i + 1;
            assert(v@ =~= self.elements@.take(i as int));
        }
        assert(self.elements@.take(i as int) =~= self.elements@);
        ContentKey { elements: v }
    }

    /// The segments joined with `.`.
    pub fn flatten(&self) -> (r: String)
        ensures
            r@ == join_segments(self@),
    {
        let mut out = String::new();
        let n = self.elements.len();
        let mut i: usize = 0;
        while i < n
            invariant
                n == self.elements.len(),
                i <= n,
                out@ == join_segments(self@.take(i as int)),
            decreases n - i,
        {
            let ghost pre = self@.take(i as int);
            let ghost next = self@.take(i as int + 1);
            assert(next.drop_last() =~= pre);
            if i > 0 {
                out.append(".");
                proof {
                    reveal_strlit(".");
                }
            }
            out.append(self.elements[i].as_str());
            i = i + 1;
            proof {
                if i == 1 {
                    assert(out@ =~= next[0]);
                } else {
                    assert(out@ =~= join_segments(pre) + seq![sep()] + next.last());
                }
            }
        }
        assert(self@.take(n as int) =~= self@);
        out
    }

    /// The key named by a flattened string: `s` cut at every `.`.
    pub fn parse(s: &str) -> (r: ContentKey)
        ensures
            r@ == split_segments(s@),
    {
        let n = s.unicode_len();
        let mut segs: Vec<String> = Vec::new();
        let mut start: usize = 0;
        let mut i: usize = 0;
        assert(s@.take(0) =~= Seq::<char>::empty());
        assert(s@.subrange(0, 0) =~= Seq::<char>::empty());
        assert(segs@.map_values(|x: String| x@).push(s@.subrange(0, 0)) =~= seq![seq![]]);
        while i < n
            invariant
                n == s@.len(),
                start <= i <= n,
                segs@.map_values(|x: String| x@).push(s@.subrange(start as int, i as int))
                    == split_segments(s@.take(i as int)),
            decreases n - i,
        {
            let c = s.get_char(i);
            let ghost prev = s@.take(i as int);
            let ghost cur = s@.take(i as int + 1);
            assert(cur.drop_last() =~= prev);
            assert(cur.last() == c);
            if c == '.' {
                let seg = String::from_str(s.substring_char(start, i));
                let ghost old_segs = segs@.map_values(|x: String| x@);
                segs.push(seg);
                start = i + 1;
                i = i + 1;
                assert(s@.subrange(start as int, i as int) =~= Seq::<char>::empty());
                assert(segs@.map_values(|x: String| x@) =~= old_segs.push(seg@));
            } else {
                let ghost old_v = segs@.map_values(|x: String| x@);
                i = i + 1;
                assert(s@.subrange(start as int, i as int) =~= s@.subrange(start as int, i - 1).push(c));
                assert(old_v.push(s@.subrange(start as int, i as int)) =~= old_v.push(
                    s@.subrange(start as int, i - 1),
                ).update(old_v.len() as int, s@.subrange(start as int, i - 1).push(c)));
            }
        }
        let last = String::from_str(s.substring_char(start, n));
        let ghost old_v = segs@.map_values(|x: String| x@);
        segs.push(last);
        assert(segs@.map_values(|x: String| x@) =~= old_v.push(last@));
        assert(s@.take(n as int) =~= s@);
        ContentKey { elements: segs }
    }
}

} // verus!
