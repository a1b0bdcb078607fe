//! Line and token structure of configuration text: splitting text into
//! lines, stripping comments, separating the verbatim command after the
//! first colon, and whitespace tokenization.

use vstd::prelude::*;

verus! {

/// Whether a byte is ASCII whitespace: space, horizontal tab, line
/// feed, vertical tab, form feed or carriage return.
pub open spec fn is_space(b: u8) -> bool {
    b == 32 || b == 9 || b == 10 || b == 11 || b == 12 || b == 13
}

/// Prepends bytes to the first part of a partition; when there is no
/// part yet, the bytes become the only part.
pub open spec fn prepend_first(pre: Seq<u8>, parts: Seq<Seq<u8>>) -> Seq<Seq<u8>> {
    if parts.len() == 0 {
        seq![pre]
    } else {
        parts.update(0, pre + parts[0])
    }
}

/// The whitespace-separated tokens of a byte sequence: every separator
/// byte ends one token, so consecutive separators yield empty tokens,
/// and there is always at least one token.
pub open spec fn tokenize(s: Seq<u8>) -> Seq<Seq<u8>>
    decreases s.len(),
{
    if s.len() == 0 {
        seq![Seq::<u8>::empty()]
    } else if is_space(s[0]) {
        seq![Seq::<u8>::empty()] + tokenize(s.skip(1))
    } else {
        prepend_first(seq![s[0]], tokenize(s.skip(1)))
    }
}

/// Tokenizing always yields at least one token.
pub proof fn lemma_tokenize_nonempty(s: Seq<u8>)
    ensures
        tokenize(s).len() >= 1,
    decreases s.len(),
{
    if s.len() > 0 && !is_space(s[0]) {
        lemma_tokenize_nonempty(s.skip(1));
    }
}

/// Everything before the first `#`, the whole sequence when there is
/// none: a comment runs from `#` to the end of the line.
pub open spec fn before_comment(s: Seq<u8>) -> Seq<u8>
    decreases s.len(),
{
    if s.len() == 0 || s[0] == 35 {
        Seq::empty()
    } else {
        seq![s[0]] + before_comment(s.skip(1))
    }
}

/// Everything before the first `:`, the whole sequence when there is
/// none.
pub open spec fn before_colon(s: Seq<u8>) -> Seq<u8>
    decreases s.len(),
{
    if s.len() == 0 || s[0] == 58 {
        Seq::empty()
    } else {
        seq![s[0]] + before_colon(s.skip(1))
    }
}

/// Everything after the first `:`, or nothing when the sequence holds
/// no colon.
pub open spec fn after_colon(s: Seq<u8>) -> Option<Seq<u8>>
    decreases s.len(),
{
    if s.len() == 0 {
        None
    } else if s[0] == 58 {
        Some(s.skip(1))
    } else {
        after_colon(s.skip(1))
    }
}

/// The sequence with its leading whitespace removed.
pub open spec fn trim_leading(s: Seq<u8>) -> Seq<u8>
    decreases s.len(),
{
    if s.len() > 0 && is_space(s[0]) {
        trim_leading(s.skip(1))
    } else {
        s
    }
}

/// The tokens of one configuration line: the comment is stripped first;
/// when the remainder holds a colon, the text before the first colon is
/// tokenized on whitespace and the text after it, with leading
/// whitespace trimmed, is appended verbatim as one final token.
pub open spec fn line_tokens(line: Seq<u8>) -> Seq<Seq<u8>> {
    let nc = before_comment(line);
    match after_colon(nc) {
        None => tokenize(nc),
        Some(post) => tokenize(before_colon(nc)).push(trim_leading(post)),
    }
}

/// One sequence with a final carriage return removed, as a line ending
/// of carriage return plus line feed leaves one behind.
pub open spec fn drop_final_cr(s: Seq<u8>) -> Seq<u8> {
    if s.len() > 0 && s.last() == 13 {
        s.drop_last()
    } else {
        s
    }
}

/// The segments between line feeds; a trailing line feed does not open
/// a final empty segment.
pub open spec fn raw_lines(s: Seq<u8>) -> Seq<Seq<u8>>
    decreases s.len(),
{
    if s.len() == 0 {
        Seq::empty()
    } else if s[0] == 10 {
        seq![Seq::<u8>::empty()] + raw_lines(s.skip(1))
    } else {
        prepend_first(seq![s[0]], raw_lines(s.skip(1)))
    }
}

/// The lines of a text: split at line feeds, each with a final carriage
/// return removed.
pub open spec fn text_lines(s: Seq<u8>) -> Seq<Seq<u8>> {
    raw_lines(s).map_values(|t: Seq<u8>| drop_final_cr(t))
}

/// A nonempty text has at least one line segment.
pub proof fn lemma_raw_lines_nonempty(s: Seq<u8>)
    requires
        s.len() > 0,
    ensures
        raw_lines(s).len() >= 1,
    decreases s.len(),
{
}

/// Pushing a byte vector onto a vector of byte vectors pushes its view
/// onto the deep view.
pub proof fn lemma_deep_push(pre: Seq<Vec<u8>>, post: Seq<Vec<u8>>, tv: Seq<u8>)
    requires
        post.len() == pre.len() + 1,
        forall|i: int| 0 <= i < pre.len() ==> post[i] == pre[i],
        post[pre.len() as int]@ == tv,
    ensures
        Seq::new(post.len(), |i: int| post[i].deep_view()) =~~= Seq::new(
            pre.len(),
            |i: int| pre[i].deep_view(),
        ).push(tv),
{
    let a = Seq::new(post.len(), |i: int| post[i].deep_view());
    let b = Seq::new(pre.len(), |i: int| pre[i].deep_view()).push(tv);
    assert forall|i: int| 0 <= i < a.len() implies a[i] =~= b[i] by {
        if i < pre.len() {
            assert(post[i] == pre[i]);
        } else {
            assert(post[i]@ == tv);
        }
    }
}

/// Whether this byte counts as whitespace for tokenization.
pub fn is_space_byte(b: u8) -> (r: bool)
    ensures
        r == is_space(b),
{
    b == 32 || b == 9 || b == 10 || b == 11 || b == 12 || b == 13
}

/// Splits a byte sequence into whitespace-separated tokens, keeping the
/// empty tokens that consecutive separators produce.
pub fn tokenize_bytes(s: &Vec<u8>) -> (toks: Vec<Vec<u8>>)
    ensures
        toks.deep_view() == tokenize(s@),
{
    let mut toks: Vec<Vec<u8>> = Vec::new();
    let mut cur: Vec<u8> = Vec::new();
    let mut j: usize = 0;
    proof {
        assert(s@.skip(0) =~= s@);
        lemma_tokenize_nonempty(s@);
        assert(toks.deep_view() =~= Seq::<Seq<u8>>::empty());
        assert(prepend_first(cur@, tokenize(s@)) =~~= tokenize(s@));
        assert(tokenize(s@) =~~= toks.deep_view() + prepend_first(cur@, tokenize(s@.skip(0))));
    }
    while j < s.len()
        invariant
            j <= s@.len(),
            tokenize(s@) == toks.deep_view() + prepend_first(cur@, tokenize(s@.skip(j as int))),
        decreases s@.len() - j,
    {
        let ghost old_vecs = toks@;
        let ghost old_dv = toks.deep_view();
        let ghost old_cur = cur@;
        let ghost head = tokenize(s@.skip(j as int));
        let ghost tail = tokenize(s@.skip(j as int + 1));
        proof {
            assert(s@.skip(j as int)[0] == s@[j as int]);
            assert(s@.skip(j as int).skip(1) =~= s@.skip(j as int + 1));
            lemma_tokenize_nonempty(s@.skip(j as int + 1));
        }
        let b: u8 = s[j];
        if is_space_byte(b) {
            proof {
                assert(head == seq![Seq::<u8>::empty()] + tail);
                assert(prepend_first(old_cur, head) =~~= seq![old_cur] + tail);
                assert(old_dv + (seq![old_cur] + tail) =~~= (old_dv.push(old_cur)) + tail);
            }
            toks.push(cur);
            cur = Vec::new();
            proof {
                assert(toks@[old_vecs.len() as int]@ == old_cur);
                lemma_deep_push(old_vecs, toks@, old_cur);
                assert(toks.deep_view() =~~= old_dv.push(old_cur));
                assert(prepend_first(cur@, tail) =~~= tail);
                assert(tokenize(s@) =~~= toks.deep_view() + prepend_first(cur@, tail));
            }
        } else {
            proof {
                assert(head == prepend_first(seq![s@[j as int]], tail));
            }
            cur.push(b);
            proof {
                assert(prepend_first(old_cur, prepend_first(seq![s@[j as int]], tail)) =~~= (
                prepend_first(cur@, tail)));
                assert(tokenize(s@) =~~= toks.deep_view() + prepend_first(cur@, tail));
            }
        }
        j = j + 1;
    }
    let ghost old_vecs = toks@;
    let ghost old_dv = toks.deep_view();
    let ghost old_cur = cur@;
    proof {
        assert(s@.skip(j as int) =~= Seq::<u8>::empty());
        assert(tokenize(s@.skip(j as int)) == seq![Seq::<u8>::empty()]);
        assert(prepend_first(old_cur, seq![Seq::<u8>::empty()]) =~~= seq![old_cur]);
    }
    toks.push(cur);
    proof {
        assert(toks@[old_vecs.len() as int]@ == old_cur);
        lemma_deep_push(old_vecs, toks@, old_cur);
        assert(toks.deep_view() =~~= old_dv.push(old_cur));
        assert(old_dv + seq![old_cur] =~~= old_dv.push(old_cur));
        assert(tokenize(s@) =~~= toks.deep_view());
    }
    toks
}

/// The tokens of one configuration line: the comment stripped, the text
/// before the first remaining colon tokenized on whitespace, and the
/// text after that colon appended as one verbatim final token with its
/// leading whitespace trimmed.
pub fn split_tokens(line: &Vec<u8>) -> (toks: Vec<Vec<u8>>)
    ensures
        toks.deep_view() == line_tokens(line@),
{
    let mut nc: Vec<u8> = Vec::new();
    let mut j: usize = 0;
    proof {
        assert(line@.skip(0) =~= line@);
    }
    while j < line.len() && line[j] != 35
        invariant
            j <= line@.len(),
            before_comment(line@) == nc@ + before_comment(line@.skip(j as int)),
        decreases line@.len() - j,
    {
        proof {
            assert(line@.skip(j as int)[0] == line@[j as int]);
            assert(line@.skip(j as int).skip(1) =~= line@.skip(j as int + 1));
        }
        let ghost old_nc = nc@;
        nc.push(line[j]);
        j = j + 1;
        proof {
            assert(old_nc + (seq![line@[j as int - 1]] + before_comment(line@.skip(j as int)))
                =~= nc@ + before_comment(line@.skip(j as int)));
        }
    }
    proof {
        assert(before_comment(line@.skip(j as int)) =~= Seq::<u8>::empty());
        assert(nc@ =~= before_comment(line@));
    }
    let mut pre: Vec<u8> = Vec::new();
    let mut k: usize = 0;
    proof {
        assert(nc@.skip(0) =~= nc@);
    }
    while k < nc.len() && nc[k] != 58
        invariant
            k <= nc@.len(),
            nc@ == before_comment(line@),
            before_colon(nc@) == pre@ + before_colon(nc@.skip(k as int)),
            after_colon(nc@) == after_colon(nc@.skip(k as int)),
        decreases nc@.len() - k,
    {
        proof {
            assert(nc@.skip(k as int)[0] == nc@[k as int]);
            assert(nc@.skip(k as int).skip(1) =~= nc@.skip(k as int + 1));
        }
        let ghost old_pre = pre@;
        pre.push(nc[k]);
        k = k + 1;
        proof {
            assert(old_pre + (seq![nc@[k as int - 1]] + before_colon(nc@.skip(k as int))) =~= pre@
                + before_colon(nc@.skip(k as int)));
        }
    }
    if k == nc.len() {
        proof {
            assert(nc@.skip(k as int) =~= Seq::<u8>::empty());
            assert(after_colon(nc@) is None);
        }
        let toks = tokenize_bytes(&nc);
        toks
    } else {
        proof {
            assert(nc@.skip(k as int)[0] == nc@[k as int]);
            assert(nc@[k as int] == 58);
            assert(nc@.skip(k as int).skip(1) =~= nc@.skip(k as int + 1));
            assert(after_colon(nc@) == Some(nc@.skip(k as int + 1)));
            assert(before_colon(nc@.skip(k as int)) =~= Seq::<u8>::empty());
            assert(pre@ =~= before_colon(nc@));
        }
        let mut toks = tokenize_bytes(&pre);
        let mut m: usize = k + 1;
        while m < nc.len() && is_space_byte(nc[m])
            invariant
                k + 1 <= m <= nc@.len(),
                trim_leading(nc@.skip(k as int + 1)) == trim_leading(nc@.skip(m as int)),
            decreases nc@.len() - m,
        {
            proof {
                assert(nc@.skip(m as int)[0] == nc@[m as int]);
                assert(nc@.skip(m as int).skip(1) =~= nc@.skip(m as int + 1));
            }
            m = m + 1;
        }
        proof {
            if m < nc@.len() {
                assert(nc@.skip(m as int)[0] == nc@[m as int]);
            } else {
                assert(nc@.skip(m as int) =~= Seq::<u8>::empty());
            }
            assert(trim_leading(nc@.skip(m as int)) == nc@.skip(m as int));
        }
        let start: usize = m;
        let mut post: Vec<u8> = Vec::new();
        while m < nc.len()
            invariant
                start <= m <= nc@.len(),
                post@ == nc@.subrange(start as int, m as int),
            decreases nc@.len() - m,
        {
            post.push(nc[m]);
            m = m + 1;
        }
        proof {
            assert(post@ =~= nc@.skip(start as int));
        }
        let ghost old_vecs = toks@;
        let ghost old_dv = toks.deep_view();
        let ghost post_v = post@;
        toks.push(post);
        proof {
            assert(toks@[old_vecs.len() as int]@ == post_v);
            lemma_deep_push(old_vecs, toks@, post_v);
            assert(toks.deep_view() =~~= old_dv.push(post_v));
            assert(toks.deep_view() =~~= line_tokens(line@));
        }
        toks
    }
}

/// The lines of a text: split at line feeds, a final carriage return
/// removed from each line, and no extra empty line after a trailing
/// line feed.
pub fn split_lines(s: &Vec<u8>) -> (lines: Vec<Vec<u8>>)
    ensures
        lines.deep_view() == text_lines(s@),
{
    let mut lines: Vec<Vec<u8>> = Vec::new();
    let mut cur: Vec<u8> = Vec::new();
    let mut j: usize = 0;
    let ghost mut raw_done: Seq<Seq<u8>> = Seq::empty();
    proof {
        assert(s@.skip(0) =~= s@);
        if s@.len() > 0 {
            lemma_raw_lines_nonempty(s@);
            assert(prepend_first(cur@, raw_lines(s@)) =~~= raw_lines(s@));
        }
        assert(lines.deep_view() =~= Seq::<Seq<u8>>::empty());
        assert(raw_done.map_values(|t: Seq<u8>| drop_final_cr(t)) =~= Seq::<Seq<u8>>::empty());
    }
    while j < s.len()
        invariant
            j <= s@.len(),
            j < s@.len() ==> raw_lines(s@) == raw_done + prepend_first(
                cur@,
                raw_lines(s@.skip(j as int)),
            ),
            j == s@.len() ==> (if s@.len() == 0 || s@[s@.len() - 1] == 10 {
                raw_lines(s@) == raw_done
            } else {
                raw_lines(s@) == raw_done.push(cur@)
            }),
            lines.deep_view() == raw_done.map_values(|t: Seq<u8>| drop_final_cr(t)),
        decreases s@.len() - j,
    {
        let ghost old_cur = cur@;
        let ghost old_done = raw_done;
        let ghost old_dv = lines.deep_view();
        let ghost tail = raw_lines(s@.skip(j as int + 1));
        proof {
            assert(s@.skip(j as int)[0] == s@[j as int]);
            assert(s@.skip(j as int).skip(1) =~= s@.skip(j as int + 1));
        }
        let b: u8 = s[j];
        if b == 10 {
            proof {
                assert(raw_lines(s@.skip(j as int)) == seq![Seq::<u8>::empty()] + tail);
                assert(prepend_first(old_cur, seq![Seq::<u8>::empty()] + tail) =~~= seq![old_cur]
                    + tail);
                assert(old_done + (seq![old_cur] + tail) =~~= (old_done.push(old_cur)) + tail);
            }
            if cur.len() > 0 && cur[cur.len() - 1] == 13 {
                cur.pop();
            }
            proof {
                assert(cur@ =~= drop_final_cr(old_cur));
            }
            let ghost old_vecs = lines@;
            lines.push(cur);
            cur = Vec::new();
            proof {
                raw_done = old_done.push(old_cur);
                assert(lines@[old_vecs.len() as int]@ == drop_final_cr(old_cur));
                lemma_deep_push(old_vecs, lines@, drop_final_cr(old_cur));
                assert(lines.deep_view() =~~= old_dv.push(drop_final_cr(old_cur)));
                assert(raw_done.map_values(|t: Seq<u8>| drop_final_cr(t)) =~~= old_done.map_values(
                    |t: Seq<u8>| drop_final_cr(t),
                ).push(drop_final_cr(old_cur)));
                if j + 1 < s@.len() {
                    lemma_raw_lines_nonempty(s@.skip(j as int + 1));
                    assert(prepend_first(cur@, tail) =~~= tail);
                } else {
                    assert(s@.skip(j as int + 1) =~= Seq::<u8>::empty());
                    assert(tail =~= Seq::<Seq<u8>>::empty());
                    assert(raw_lines(s@) =~~= raw_done);
                }
            }
        } else {
            proof {
                assert(raw_lines(s@.skip(j as int)) == prepend_first(seq![s@[j as int]], tail));
            }
            cur.push(b);
            proof {
                assert(prepend_first(old_cur, prepend_first(seq![s@[j as int]], tail)) =~~= (
                prepend_first(cur@, tail)));
                if j + 1 == s@.len() {
                    assert(s@.skip(j as int + 1) =~= Seq::<u8>::empty());
                    assert(tail =~= Seq::<Seq<u8>>::empty());
                    assert(prepend_first(cur@, tail) =~~= seq![cur@]);
                    assert(raw_lines(s@) =~~= raw_done.push(cur@));
                }
            }
        }
        j = j + 1;
    }
    if s.len() > 0 && s[s.len() - 1] != 10 {
        let ghost old_cur = cur@;
        let ghost old_done = raw_done;
        let ghost old_dv = lines.deep_view();
        if cur.len() > 0 && cur[cur.len() - 1] == 13 {
            cur.pop();
        }
        proof {
            assert(cur@ =~= drop_final_cr(old_cur));
        }
        let ghost old_vecs = lines@;
        lines.push(cur);
        proof {
            raw_done = old_done.push(old_cur);
            assert(lines@[old_vecs.len() as int]@ == drop_final_cr(old_cur));
            lemma_deep_push(old_vecs, lines@, drop_final_cr(old_cur));
            assert(lines.deep_view() =~~= old_dv.push(drop_final_cr(old_cur)));
            assert(raw_done.map_values(|t: Seq<u8>| drop_final_cr(t)) =~~= old_done.map_values(
                |t: Seq<u8>| drop_final_cr(t),
            ).push(drop_final_cr(old_cur)));
            assert(lines.deep_view() =~~= text_lines(s@));
        }
    } else {
        proof {
            assert(lines.deep_view() =~~= text_lines(s@));
        }
    }
    lines
}

} // verus!
