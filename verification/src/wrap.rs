use vstd::prelude::*;
use vstd::string::{StrSliceExecFns, StringExecFns};
use crate::width::{cell_count, text_width};

verus! {

/// The views of a sequence of owned strings.
pub open spec fn str_views(ss: Seq<String>) -> Seq<Seq<char>> {
    ss.map_values(|w: String| w@)
}

/// The first position at or after `pos` holding a space, or the text's end.
pub open spec fn word_end(s: Seq<char>, pos: int) -> int
    decreases s.len() - pos,
{
    if pos < 0 || pos >= s.len() {
        s.len() as int
    } else if s[pos] == ' ' {
        pos
    } else {
        word_end(s, pos + 1)
    }
}

proof fn lemma_word_end(s: Seq<char>, pos: int)
    requires
        0 <= pos <= s.len(),
    ensures
        pos <= word_end(s, pos) <= s.len(),
        pos < s.len() && s[pos] != ' ' ==> pos < word_end(s, pos),
        forall|j: int| pos <= j < word_end(s, pos) ==> s[j] != ' ',
        word_end(s, pos) < s.len() ==> s[word_end(s, pos)] == ' ',
    decreases s.len() - pos,
{
    if pos < s.len() && s[pos] != ' ' {
        lemma_word_end(s, pos + 1);
    }
}

/// `word_end` finds exactly the end of a run of non-spaces.
proof fn lemma_word_end_at(s: Seq<char>, ws: int, i: int)
    requires
        0 <= ws <= i <= s.len(),
        forall|j: int| ws <= j < i ==> s[j] != ' ',
        i == s.len() || s[i] == ' ',
    ensures
        word_end(s, ws) == i,
    decreases i - ws,
{
    if ws < i {
        lemma_word_end_at(s, ws + 1, i);
    }
}

/// The whitespace-separated words of the text from position `pos` on; runs of
/// spaces produce no empty words.
pub open spec fn words_from(s: Seq<char>, pos: int) -> Seq<Seq<char>>
    decreases s.len() - pos,
    via words_from_dec
{
    if pos < 0 || pos >= s.len() {
        Seq::empty()
    } else if s[pos] == ' ' {
        words_from(s, pos + 1)
    } else {
        seq![s.subrange(pos, word_end(s, pos))] + words_from(s, word_end(s, pos))
    }
}

#[via_fn]
proof fn words_from_dec(s: Seq<char>, pos: int) {
    if 0 <= pos < s.len() && s[pos] != ' ' {
        lemma_word_end(s, pos);
    }
}

/// The whitespace-separated words of a text.
pub open spec fn words_of(s: Seq<char>) -> Seq<Seq<char>> {
    words_from(s, 0)
}

/// Every word of a text is nonempty and holds no space.
pub proof fn lemma_words_solid(s: Seq<char>, pos: int)
    requires
        0 <= pos <= s.len(),
    ensures
        forall|i: int|
            0 <= i < words_from(s, pos).len() ==> (#[trigger] words_from(s, pos)[i]).len() > 0,
        forall|i: int, j: int|
            0 <= i < words_from(s, pos).len() && 0 <= j < words_from(s, pos)[i].len() ==> (
            #[trigger] words_from(s, pos)[i][j]) != ' ',
    decreases s.len() - pos,
{
    if pos >= s.len() {
        assert(words_from(s, pos) =~= Seq::<Seq<char>>::empty());
    } else if s[pos] == ' ' {
        lemma_words_solid(s, pos + 1);
        assert(words_from(s, pos) == words_from(s, pos + 1));
    } else {
        lemma_word_end(s, pos);
        let we = word_end(s, pos);
        lemma_words_solid(s, we);
        let first = s.subrange(pos, we);
        assert(words_from(s, pos) == seq![first] + words_from(s, we));
        assert(first.len() > 0);
        assert(forall|j: int| 0 <= j < first.len() ==> (#[trigger] first[j]) != ' ');
        assert forall|i: int| 0 <= i < words_from(s, pos).len() implies (#[trigger] words_from(
            s,
            pos,
        )[i]).len() > 0 by {
            if i > 0 {
                assert(words_from(s, pos)[i] == words_from(s, we)[i - 1]);
            }
        }
        assert forall|i: int, j: int|
            0 <= i < words_from(s, pos).len() && 0 <= j < words_from(s, pos)[i].len() implies (
        #[trigger] words_from(s, pos)[i][j]) != ' ' by {
            if i > 0 {
                assert(words_from(s, pos)[i] == words_from(s, we)[i - 1]);
            }
        }
    }
}

/// Split a text into its whitespace-separated words.
pub fn split_words(s: &str) -> (r: Vec<String>)
    ensures
        str_views(r@) == words_of(s@),
{
    let n = s.unicode_len();
    let mut out: Vec<String> = Vec::new();
    let mut ws: usize = 0;
    let mut i: usize = 0;
    proof {
        assert(str_views(out@) =~= Seq::<Seq<char>>::empty());
    }
    while i < n
        invariant
            ws <= i <= n,
            n == s@.len(),
            forall|j: int| ws <= j < i ==> s@[j] != ' ',
            words_of(s@) == str_views(out@) + words_from(s@, ws as int),
        decreases n - i,
    {
        let c = s.get_char(i);
        if c == ' ' {
            if ws < i {
                let w = s.substring_char(ws, i);
                let ghost old_out = out@;
                out.push(w.to_owned());
                proof {
                    lemma_word_end_at(s@, ws as int, i as int);
                    assert(words_from(s@, ws as int) == seq![s@.subrange(ws as int, i as int)]
                        + words_from(s@, i as int));
                    assert(words_from(s@, i as int) == words_from(s@, i + 1));
                    assert(str_views(out@) =~= str_views(old_out).push(w@));
                    assert(str_views(out@) + words_from(s@, i + 1) =~= str_views(old_out) + (seq![
                        s@.subrange(ws as int, i as int)
                    ] + words_from(s@, i + 1)));
                }
            } else {
                proof {
                    assert(words_from(s@, i as int) == words_from(s@, i + 1));
                }
            }
            ws = i + 1;
        }
        i += 1;
    }
    if ws < n {
        let w = s.substring_char(ws, n);
        let ghost old_out = out@;
        out.push(w.to_owned());
        proof {
            lemma_word_end_at(s@, ws as int, n as int);
            assert(words_from(s@, ws as int) == seq![s@.subrange(ws as int, n as int)]
                + words_from(s@, n as int));
            assert(words_from(s@, n as int) =~= Seq::<Seq<char>>::empty());
            assert(str_views(out@) =~= str_views(old_out).push(w@));
            assert(str_views(out@) =~= str_views(old_out) + (seq![s@.subrange(ws as int, n as int)]
                + words_from(s@, n as int)));
        }
    } else {
        proof {
            assert(words_from(s@, ws as int) =~= Seq::<Seq<char>>::empty());
            assert(str_views(out@) =~= str_views(out@) + words_from(s@, ws as int));
        }
    }
    out
}

/// Greedy filling: `cur` is the line being filled, `ws` the words still to
/// place. A word joins the line if the joined text still fits in `limit`
/// cells; otherwise the line is emitted and the word opens a new one.
pub open spec fn wrap_acc(cur: Seq<char>, ws: Seq<Seq<char>>, limit: nat) -> Seq<Seq<char>>
    decreases ws.len(),
{
    if ws.len() == 0 {
        seq![cur]
    } else {
        let cand = cur + seq![' '] + ws[0];
        if cell_count(cand) <= limit {
            wrap_acc(cand, ws.drop_first(), limit)
        } else {
            seq![cur] + wrap_acc(ws[0], ws.drop_first(), limit)
        }
    }
}

/// The fragments a text wraps into at `limit` cells: words are taken in
/// order, split only at whitespace, greedily filling each line.
pub open spec fn wrapped_lines(s: Seq<char>, limit: nat) -> Seq<Seq<char>> {
    let ws = words_of(s);
    if ws.len() == 0 {
        Seq::empty()
    } else {
        wrap_acc(ws[0], ws.drop_first(), limit)
    }
}

proof fn lemma_wrap_acc_fits(cur: Seq<char>, ws: Seq<Seq<char>>, limit: nat)
    requires
        cell_count(cur) <= limit,
        forall|i: int| 0 <= i < ws.len() ==> cell_count(#[trigger] ws[i]) <= limit,
    ensures
        forall|i: int|
            0 <= i < wrap_acc(cur, ws, limit).len() ==> cell_count(
                #[trigger] wrap_acc(cur, ws, limit)[i],
            ) <= limit,
    decreases ws.len(),
{
    if ws.len() > 0 {
        let cand = cur + seq![' '] + ws[0];
        assert(forall|i: int|
            0 <= i < ws.drop_first().len() ==> cell_count(#[trigger] ws.drop_first()[i]) <= limit);
        if cell_count(cand) <= limit {
            lemma_wrap_acc_fits(cand, ws.drop_first(), limit);
            assert(wrap_acc(cur, ws, limit) == wrap_acc(cand, ws.drop_first(), limit));
        } else {
            assert(cell_count(ws[0]) <= limit);
            lemma_wrap_acc_fits(ws[0], ws.drop_first(), limit);
            let rec = wrap_acc(ws[0], ws.drop_first(), limit);
            assert(wrap_acc(cur, ws, limit) == seq![cur] + rec);
            assert forall|i: int| 0 <= i < wrap_acc(cur, ws, limit).len() implies cell_count(
                #[trigger] wrap_acc(cur, ws, limit)[i],
            ) <= limit by {
                if i > 0 {
                    assert(wrap_acc(cur, ws, limit)[i] == rec[i - 1]);
                }
            }
        }
    }
}

/// Wrap safety: when the wrap width accommodates every single word of the
/// text, every fragment of the wrapped text fits within the wrap width.
pub proof fn lemma_wrap_fits(s: Seq<char>, limit: nat)
    requires
        forall|i: int|
            0 <= i < words_of(s).len() ==> cell_count(#[trigger] words_of(s)[i]) <= limit,
    ensures
        forall|i: int|
            0 <= i < wrapped_lines(s, limit).len() ==> cell_count(
                #[trigger] wrapped_lines(s, limit)[i],
            ) <= limit,
{
    let ws = words_of(s);
    if ws.len() > 0 {
        assert(cell_count(ws[0]) <= limit);
        assert(forall|i: int|
            0 <= i < ws.drop_first().len() ==> cell_count(#[trigger] ws.drop_first()[i]) <= limit);
        lemma_wrap_acc_fits(ws[0], ws.drop_first(), limit);
    }
}

/// Word-wrap a line to at most `limit` cells per fragment, splitting only at
/// whitespace. A single word wider than `limit` stands alone in an
/// over-wide fragment rather than being broken.
pub fn wrap_line(s: &str, limit: usize) -> (r: Vec<String>)
    ensures
        str_views(r@) == wrapped_lines(s@, limit as nat),
{
    let words = split_words(s);
    if words.len() == 0 {
        let empty: Vec<String> = Vec::new();
        proof {
            assert(str_views(empty@) =~= wrapped_lines(s@, limit as nat));
        }
        return empty;
    }
    let mut frags: Vec<String> = Vec::new();
    let mut cur: String = words[0].clone();
    let mut i: usize = 1;
    proof {
        assert(str_views(words@) == words_of(s@));
        assert(words@[0]@ == words_of(s@)[0]);
        assert(str_views(words@).skip(1) =~= words_of(s@).drop_first());
        assert(str_views(frags@) =~= Seq::<Seq<char>>::empty());
    }
    while i < words.len()
        invariant
            1 <= i <= words@.len(),
            str_views(words@) == words_of(s@),
            words_of(s@).len() == words@.len(),
            wrapped_lines(s@, limit as nat) == str_views(frags@) + wrap_acc(
                cur@,
                words_of(s@).skip(i as int),
                limit as nat,
            ),
        decreases words@.len() - i,
    {
        let mut cand = cur.clone();
        cand.append(" ");
        cand.append(words[i].as_str());
        proof {
            reveal_strlit(" ");
            assert(words@[i as int]@ == words_of(s@)[i as int]);
            assert(cand@ =~= cur@ + seq![' '] + words_of(s@)[i as int]);
            assert(words_of(s@).skip(i as int)[0] == words_of(s@)[i as int]);
            assert(words_of(s@).skip(i as int).drop_first() =~= words_of(s@).skip(i + 1));
        }
        let cw = text_width(cand.as_str());
        if cw <= limit {
            cur = cand;
        } else {
            let ghost old_frags = frags@;
            frags.push(cur);
            cur = words[i].clone();
            proof {
                assert(str_views(frags@) =~= str_views(old_frags).push(frags@.last()@));
                assert(str_views(old_frags).push(frags@.last()@) + wrap_acc(
                    cur@,
                    words_of(s@).skip(i + 1),
                    limit as nat,
                ) =~= str_views(old_frags) + (seq![frags@.last()@] + wrap_acc(
                    cur@,
                    words_of(s@).skip(i + 1),
                    limit as nat,
                )));
            }
        }
        i += 1;
    }
    let ghost old_frags = frags@;
    frags.push(cur);
    proof {
        assert(words_of(s@).skip(words@.len() as int) =~= Seq::<Seq<char>>::empty());
        assert(str_views(frags@) =~= str_views(old_frags).push(frags@.last()@));
    }
    frags
}

} // verus!
