//! JSON Pointer paths: the address part of a patch operation.
//!
//! A pointer is held as its decoded segments. The text form escapes `~` as
//! `~0` and `/` as `~1`; `parse` accepts exactly the well-escaped texts and
//! `to_text` renders the text form back.

use vstd::prelude::*;

verus! {

/// Escaped text of one decoded character.
pub open spec fn escape_char(c: char) -> Seq<char> {
    if c == '~' {
        seq!['~', '0']
    } else if c == '/' {
        seq!['~', '1']
    } else {
        seq![c]
    }
}

/// Escaped text of one decoded segment.
pub open spec fn encode_segment(seg: Seq<char>) -> Seq<char>
    decreases seg.len(),
{
    if seg.len() == 0 {
        Seq::empty()
    } else {
        encode_segment(seg.drop_last()) + escape_char(seg.last())
    }
}

/// Text form of a whole pointer: one `/` before each escaped segment.
pub open spec fn encode_pointer(segs: Seq<Seq<char>>) -> Seq<char>
    decreases segs.len(),
{
    if segs.len() == 0 {
        Seq::empty()
    } else {
        encode_pointer(segs.drop_last()) + seq!['/'] + encode_segment(segs.last())
    }
}

/// The texts that decode to a pointer: empty, or `/`-led with every `~`
/// followed by `0` or `1`.
pub open spec fn wf_pointer_text(s: Seq<char>) -> bool {
    s.len() == 0 || (s[0] == '/' && forall|i: int|
        0 <= i < s.len() && #[trigger] s[i] == '~' ==> i + 1 < s.len() && (s[i + 1] == '0' || s[i
            + 1] == '1'))
}

/// A parsed JSON Pointer: the ordered decoded segments of the path.
#[derive(Debug)]
pub struct Pointer {
    pub segments: Vec<String>,
}

impl View for Pointer {
    type V = Seq<Seq<char>>;

    open spec fn view(&self) -> Seq<Seq<char>> {
        Seq::new(self.segments@.len(), |i: int| self.segments@[i]@)
    }
}

impl Clone for Pointer {
    fn clone(&self) -> (r: Self)
        ensures
            r@ == self@,
    {
        let mut segments: Vec<String> = Vec::new();
        let mut i: usize = 0;
        while i < self.segments.len()
            invariant
                i <= self.segments.len(),
                segments@.len() == i as int,
                forall|j: int| 0 <= j < i as int ==> segments@[j]@ == self.segments@[j]@,
            decreases self.segments.len() - i,
        {
            segments.push(self.segments[i].clone());
            i = i + 1;
        }
        let r = Pointer { segments };
        proof {
            assert(r@ =~= self@);
        }
        r
    }
}

impl Pointer {
    /// Parse a pointer from its text form.
    ///
    /// Returns the decoded segments exactly when the text is well formed,
    /// and `None` otherwise.
    #[verifier::loop_isolation(false)]
    pub fn parse(text: &str) -> (r: Option<Pointer>)
        ensures
            r is Some <==> wf_pointer_text(text@),
            r matches Some(p) ==> encode_pointer(p@) == text@,
    {
        let n = text.unicode_len();
        if n == 0 {
            let p = Pointer { segments: Vec::new() };
            proof {
                assert(p@ =~= Seq::<Seq<char>>::empty());
                assert(encode_pointer(p@) =~= text@);
            }
            return Some(p);
        }
        if text.get_char(0) != '/' {
            return None;
        }
        let mut segments: Vec<String> = Vec::new();
        let mut cur: String = String::new();
        let mut i: usize = 1;
        while i < n
            invariant
                1 <= i <= n,
                encode_pointer(Seq::new(segments@.len(), |j: int| segments@[j]@)) + seq!['/']
                    + encode_segment(cur@) =~= text@.subrange(0, i as int),
                forall|j: int| 0 <= j < i as int && #[trigger] text@[j] == '~' ==> j + 1
                    < text@.len() && (text@[j + 1] == '0' || text@[j + 1] == '1'),
            decreases n - i,
        {
            let c = text.get_char(i);
            if c == '/' {
                let ghost old_segs = Seq::new(segments@.len(), |j: int| segments@[j]@);
                let ghost old_cur = cur@;
                segments.push(cur);
                cur = String::new();
                proof {
                    let new_segs = Seq::new(segments@.len(), |j: int| segments@[j]@);
                    assert(new_segs =~= old_segs.push(old_cur));
                    assert(new_segs.drop_last() =~= old_segs);
                    assert(encode_pointer(new_segs) + seq!['/'] + encode_segment(cur@)
                        =~= text@.subrange(0, i + 1 as int));
                }
                i = i + 1;
            } else if c == '~' {
                if i + 1 >= n {
                    return None;
                }
                let d = text.get_char(i + 1);
                let ghost old_cur = cur@;
                if d == '0' {
                    proof {
                        reveal_strlit("~");
                    }
                    cur.append("~");
                } else if d == '1' {
                    proof {
                        reveal_strlit("/");
                    }
                    cur.append("/");
                } else {
                    return None;
                }
                proof {
                    lemma_encode_segment_push(old_cur, cur@.last());
                    assert(cur@.drop_last() =~= old_cur);
                    assert(escape_char(cur@.last()) =~= text@.subrange(i as int, i + 2 as int));
                    assert(encode_pointer(Seq::new(segments@.len(), |j: int| segments@[j]@))
                        + seq!['/'] + encode_segment(cur@) =~= text@.subrange(0, i + 2 as int));
                }
                i = i + 2;
            } else {
                let ghost old_cur = cur@;
                let piece = text.substring_char(i, i + 1);
                cur.append(piece);
                proof {
                    lemma_encode_segment_push(old_cur, cur@.last());
                    assert(cur@.drop_last() =~= old_cur);
                    assert(escape_char(cur@.last()) =~= text@.subrange(i as int, i + 1 as int));
                    assert(encode_pointer(Seq::new(segments@.len(), |j: int| segments@[j]@))
                        + seq!['/'] + encode_segment(cur@) =~= text@.subrange(0, i + 1 as int));
                }
                i = i + 1;
            }
        }
        let ghost old_segs = Seq::new(segments@.len(), |j: int| segments@[j]@);
        let ghost old_cur = cur@;
        segments.push(cur);
        let p = Pointer { segments };
        proof {
            assert(p@ =~= old_segs.push(old_cur));
            assert(p@.drop_last() =~= old_segs);
            assert(encode_pointer(p@) =~= text@);
        }
        Some(p)
    }

    /// Render the pointer back to its text form.
    #[verifier::loop_isolation(false)]
    pub fn to_text(&self) -> (r: String)
        ensures
            r@ == encode_pointer(self@),
    {
        let mut out = String::new();
        let mut i: usize = 0;
        while i < self.segments.len()
            invariant
                i <= self.segments.len(),
                out@ =~= encode_pointer(self@.subrange(0, i as int)),
            decreases self.segments.len() - i,
        {
            proof {
                reveal_strlit("/");
            }
            out.append("/");
            let seg: &str = self.segments[i].as_str();
            let m = seg.unicode_len();
            let mut k: usize = 0;
            proof {
                assert(seg@.subrange(0, 0) =~= Seq::<char>::empty());
            }
            while k < m
                invariant
                    k <= m,
                    seg@ == self.segments@[i as int]@,
                    i < self.segments.len(),
                    out@ =~= encode_pointer(self@.subrange(0, i as int)) + seq!['/']
                        + encode_segment(seg@.subrange(0, k as int)),
                decreases m - k,
            {
                let c = seg.get_char(k);
                let ghost done = seg@.subrange(0, k as int);
                if c == '~' {
                    proof {
                        reveal_strlit("~0");
                    }
                    out.append("~0");
                } else if c == '/' {
                    proof {
                        reveal_strlit("~1");
                    }
                    out.append("~1");
                } else {
                    out.append(seg.substring_char(k, k + 1));
                }
                proof {
                    lemma_encode_segment_push(done, c);
                    assert(seg@.subrange(0, k + 1 as int).drop_last() =~= done);
                    assert(out@ =~= encode_pointer(self@.subrange(0, i as int)) + seq!['/']
                        + encode_segment(seg@.subrange(0, k + 1 as int)));
                }
                k = k + 1;
            }
            proof {
                assert(seg@.subrange(0, m as int) =~= seg@);
                assert(self@.subrange(0, i + 1 as int).drop_last() =~= self@.subrange(
                    0,
                    i as int,
                ));
                assert(self@.subrange(0, i + 1 as int).last() == seg@);
                assert(out@ =~= encode_pointer(self@.subrange(0, i + 1 as int)));
            }
            i = i + 1;
        }
        proof {
            assert(self@.subrange(0, self.segments@.len() as int) =~= self@);
        }
        out
    }
}

/// Appending one decoded character appends its escaped text.
pub proof fn lemma_encode_segment_push(seg: Seq<char>, c: char)
    ensures
        encode_segment(seg.push(c)) == encode_segment(seg) + escape_char(c),
{
    assert(seg.push(c).drop_last() =~= seg);
    assert(seg.push(c).last() == c);
}

} // verus!
