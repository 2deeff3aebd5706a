use vstd::prelude::*;
use vstd::string::{StrSliceExecFns, StringExecFns};
use crate::color::{decode_art_header, is_hex6, rgb_of, AssetError};
use crate::width::{cell_count, pad_to_width, space_extendable, text_width};
use crate::wrap::str_views;

verus! {

/// The first position at or after `pos` holding a newline, or the text's end.
pub open spec fn line_end(s: Seq<char>, pos: int) -> int
    decreases s.len() - pos,
{
    if pos < 0 || pos >= s.len() {
        s.len() as int
    } else if s[pos] == '\n' {
        pos
    } else {
        line_end(s, pos + 1)
    }
}

proof fn lemma_line_end(s: Seq<char>, pos: int)
    requires
        0 <= pos <= s.len(),
    ensures
        pos <= line_end(s, pos) <= s.len(),
        forall|j: int| pos <= j < line_end(s, pos) ==> s[j] != '\n',
        line_end(s, pos) < s.len() ==> s[line_end(s, pos)] == '\n',
    decreases s.len() - pos,
{
    if pos < s.len() && s[pos] != '\n' {
        lemma_line_end(s, pos + 1);
    }
}

proof fn lemma_line_end_at(s: Seq<char>, start: int, i: int)
    requires
        0 <= start <= i <= s.len(),
        forall|j: int| start <= j < i ==> s[j] != '\n',
        i == s.len() || s[i] == '\n',
    ensures
        line_end(s, start) == i,
    decreases i - start,
{
    if start < i {
        lemma_line_end_at(s, start + 1, i);
    }
}

/// The newline-delimited segments of the text from `pos` on; empty segments
/// are kept, and the text's end always closes a final segment.
pub open spec fn lines_from(s: Seq<char>, pos: int) -> Seq<Seq<char>>
    decreases s.len() - pos,
    via lines_from_dec
{
    if pos < 0 || pos > s.len() {
        Seq::empty()
    } else {
        let e = line_end(s, pos);
        if e >= s.len() {
            seq![s.subrange(pos, s.len() as int)]
        } else {
            seq![s.subrange(pos, e)] + lines_from(s, e + 1)
        }
    }
}

#[via_fn]
proof fn lines_from_dec(s: Seq<char>, pos: int) {
    if 0 <= pos <= s.len() {
        lemma_line_end(s, pos);
    }
}

/// The lines of a newline-delimited text: a trailing newline closes the last
/// line rather than opening an empty one.
pub open spec fn lines_of(s: Seq<char>) -> Seq<Seq<char>> {
    if s.len() > 0 && s.last() == '\n' {
        lines_from(s.take(s.len() - 1), 0)
    } else {
        lines_from(s, 0)
    }
}

/// Split a text into its lines.
pub fn split_lines(s: &str) -> (r: Vec<String>)
    ensures
        str_views(r@) == lines_of(s@),
        r@.len() > 0,
{
    let n = s.unicode_len();
    let m = if n > 0 && s.get_char(n - 1) == '\n' {
        n - 1
    } else {
        n
    };
    let body = s.substring_char(0, m);
    proof {
        if m < n {
            assert(body@ =~= s@.take(s@.len() - 1));
        } else {
            assert(body@ =~= s@);
        }
    }
    let mut out: Vec<String> = Vec::new();
    let mut start: usize = 0;
    let mut i: usize = 0;
    proof {
        assert(str_views(out@) =~= Seq::<Seq<char>>::empty());
    }
    while i < m
        invariant
            start <= i <= m,
            m == body@.len(),
            forall|j: int| start <= j < i ==> body@[j] != '\n',
            lines_from(body@, 0) == str_views(out@) + lines_from(body@, start as int),
        decreases m - i,
    {
        let c = body.get_char(i);
        if c == '\n' {
            let w = body.substring_char(start, i);
            let ghost old_out = out@;
            out.push(w.to_owned());
            proof {
                lemma_line_end_at(body@, start as int, i as int);
                assert(lines_from(body@, start as int) == seq![
                    body@.subrange(start as int, i as int)
                ] + lines_from(body@, i + 1));
                assert(str_views(out@) =~= str_views(old_out).push(w@));
                assert(str_views(out@) + lines_from(body@, i + 1) =~= str_views(old_out) + (seq![
                    body@.subrange(start as int, i as int)
                ] + lines_from(body@, i + 1)));
            }
            start = i + 1;
        }
        i += 1;
    }
    let w = body.substring_char(start, m);
    let ghost old_out = out@;
    out.push(w.to_owned());
    proof {
        lemma_line_end_at(body@, start as int, m as int);
        assert(lines_from(body@, start as int) == seq![body@.subrange(start as int, m as int)]);
        assert(str_views(out@) =~= str_views(old_out).push(w@));
        assert(str_views(out@) =~= str_views(old_out) + lines_from(body@, start as int));
    }
    out
}

/// An embedded art asset: the accent color its header spells, and the
/// picture lines below the header.
pub struct ArtAsset {
    pub accent: (u8, u8, u8),
    pub picture_lines: Vec<String>,
}

/// Parse an art asset text: the first line must be exactly six hex digits,
/// the remaining lines are the picture.
pub fn parse_asset(text: &str) -> (r: Result<ArtAsset, AssetError>)
    ensures
        r is Ok <==> is_hex6(lines_of(text@)[0]),
        r matches Ok(a) ==> (a.accent.0 as nat, a.accent.1 as nat, a.accent.2 as nat) == rgb_of(
            lines_of(text@)[0],
        ) && str_views(a.picture_lines@) == lines_of(text@).drop_first(),
        r is Err ==> r == Err::<ArtAsset, AssetError>(AssetError),
{
    let all = split_lines(text);
    let accent = match decode_art_header(all[0].as_str()) {
        Ok(t) => t,
        Err(e) => {
            return Err(AssetError);
        },
    };
    let mut picture_lines: Vec<String> = Vec::new();
    let mut i: usize = 1;
    while i < all.len()
        invariant
            1 <= i <= all@.len(),
            str_views(all@) == lines_of(text@),
            picture_lines@.len() == i - 1,
            forall|j: int| 0 <= j < i - 1 ==> (#[trigger] picture_lines@[j])@ == all@[j + 1]@,
        decreases all@.len() - i,
    {
        picture_lines.push(all[i].clone());
        i += 1;
    }
    proof {
        assert(str_views(picture_lines@) =~= lines_of(text@).drop_first());
    }
    Ok(ArtAsset { accent, picture_lines })
}

/// The widest display width among a set of lines.
pub open spec fn max_cells(ls: Seq<Seq<char>>) -> nat
    decreases ls.len(),
{
    if ls.len() == 0 {
        0
    } else {
        let rest = max_cells(ls.drop_last());
        if cell_count(ls.last()) >= rest {
            cell_count(ls.last())
        } else {
            rest
        }
    }
}

/// No line is wider than the widest.
pub proof fn lemma_max_cells_ge(ls: Seq<Seq<char>>, i: int)
    requires
        0 <= i < ls.len(),
    ensures
        cell_count(ls[i]) <= max_cells(ls),
    decreases ls.len(),
{
    if i < ls.len() - 1 {
        lemma_max_cells_ge(ls.drop_last(), i);
        assert(ls.drop_last()[i] == ls[i]);
    }
}

/// The picture block padded to a uniform column: every line carries trailing
/// spaces up to `column_width` cells.
pub struct PaddedArt {
    pub lines: Vec<String>,
    pub column_width: usize,
}

/// Every line of a padded art block has display width exactly `column_width`.
pub open spec fn padded_art_wf(a: PaddedArt) -> bool {
    forall|i: int|
        0 <= i < a.lines@.len() ==> cell_count((#[trigger] a.lines@[i])@) == a.column_width
}

/// Pad every picture line on the right with spaces to the width of the
/// widest line plus a fixed three-cell gutter. Order is kept, and each padded
/// line is its picture line followed by spaces only.
pub fn prepare(picture: &Vec<String>) -> (r: PaddedArt)
    requires
        forall|i: int| 0 <= i < picture@.len() ==> space_extendable((#[trigger] picture@[i])@),
        forall|i: int| 0 <= i < picture@.len() ==> (#[trigger] picture@[i])@.len() + 3 <= usize::MAX,
    ensures
        r.column_width == max_cells(str_views(picture@)) + 3,
        r.lines@.len() == picture@.len(),
        padded_art_wf(r),
        forall|i: int|
            0 <= i < picture@.len() ==> (#[trigger] r.lines@[i])@ == picture@[i]@
                + crate::merge::spaces((r.column_width - cell_count(picture@[i]@)) as nat),
{
    let ghost views = str_views(picture@);
    let mut maxw: usize = 0;
    let mut i: usize = 0;
    proof {
        assert(views.take(0) =~= Seq::<Seq<char>>::empty());
    }
    while i < picture.len()
        invariant
            i <= picture@.len(),
            views == str_views(picture@),
            maxw == max_cells(views.take(i as int)),
            maxw + 3 <= usize::MAX,
            forall|j: int| 0 <= j < picture@.len() ==> (#[trigger] picture@[j])@.len() + 3
                <= usize::MAX,
        decreases picture@.len() - i,
    {
        let w = text_width(picture[i].as_str());
        proof {
            assert(views.take(i + 1).drop_last() =~= views.take(i as int));
            assert(views.take(i + 1).last() == picture@[i as int]@);
        }
        if w > maxw {
            maxw = w;
        }
        i += 1;
    }
    proof {
        assert(views.take(picture@.len() as int) =~= views);
    }
    let cw = maxw + 3;
    let mut lines: Vec<String> = Vec::new();
    i = 0;
    while i < picture.len()
        invariant
            i <= picture@.len(),
            views == str_views(picture@),
            maxw == max_cells(views),
            maxw + 3 <= usize::MAX,
            cw == maxw + 3,
            lines@.len() == i,
            forall|i2: int| 0 <= i2 < picture@.len() ==> space_extendable(
                (#[trigger] picture@[i2])@,
            ),
            forall|j: int| 0 <= j < i ==> cell_count((#[trigger] lines@[j])@) == cw,
            forall|j: int|
                0 <= j < i ==> (#[trigger] lines@[j])@ == picture@[j]@ + crate::merge::spaces(
                    (cw - cell_count(picture@[j]@)) as nat,
                ),
        decreases picture@.len() - i,
    {
        proof {
            lemma_max_cells_ge(views, i as int);
            assert(views[i as int] == picture@[i as int]@);
        }
        let p = pad_to_width(&picture[i], cw);
        lines.push(p);
        i += 1;
    }
    PaddedArt { lines, column_width: cw }
}

} // verus!
