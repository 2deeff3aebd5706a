use unicode_segmentation::UnicodeSegmentation;
use vstd::prelude::*;

verus! {

/// The number of terminal cells a text occupies: its count of extended
/// grapheme clusters, as the outside segmentation library computes it. The
/// count depends on the characters alone.
pub uninterp spec fn cell_count(s: Seq<char>) -> nat;

/// Characters that attach to the cluster of the character that follows them
/// (the grapheme break property `Prepend`). A trailing space merges with a
/// preceding character exactly when that character prepends.
pub open spec fn is_prepend_char(c: char) -> bool {
    let u = c as u32;
    (0x600 <= u <= 0x605) || u == 0x6dd || u == 0x70f || (0x890 <= u <= 0x891) || u == 0x8e2 || u
        == 0xd4e || u == 0x110bd || u == 0x110cd || (0x111c2 <= u <= 0x111c3) || u == 0x113d1 || u
        == 0x1193f || u == 0x11941 || (0x11a84 <= u <= 0x11a89) || u == 0x11d46 || u == 0x11f02
}

/// A text to which a trailing space can be added without disturbing the
/// cluster of its last character.
pub open spec fn space_extendable(s: Seq<char>) -> bool {
    s.len() == 0 || !is_prepend_char(s.last())
}

/// A text of visible single-cell characters only.
pub open spec fn single_cell_text(s: Seq<char>) -> bool {
    forall|i: int| 0 <= i < s.len() ==> 0x20 <= (#[trigger] s[i]) as u32 <= 0x7e
}

/// Relies on unicode_segmentation::UnicodeSegmentation::graphemes: the number
/// of extended grapheme clusters of the text. A cluster spans at least one
/// character, and every printable ASCII character is a cluster of its own.
#[verifier::external_body]
fn grapheme_count(s: &str) -> (r: usize)
    ensures
        r == cell_count(s@),
        r <= s@.len(),
        single_cell_text(s@) ==> r == s@.len(),
{
    s.graphemes(true).count()
}

/// Relies on std String::push, and on unicode_segmentation's grapheme break
/// rules for the stated cell count: a space begins a cluster of its own unless
/// the character before it prepends.
#[verifier::external_body]
fn push_space(s: &mut String)
    ensures
        final(s)@ == old(s)@.push(' '),
        space_extendable(old(s)@) ==> cell_count(final(s)@) == cell_count(old(s)@) + 1,
{
    s.push(' ');
}

/// The display width of a text in terminal cells, counted by extended
/// grapheme cluster. A text of visible single-cell characters is as wide as
/// it is long; the empty text has width 0.
pub fn text_width(s: &str) -> (r: usize)
    ensures
        r == cell_count(s@),
        r <= s@.len(),
        single_cell_text(s@) ==> r == s@.len(),
{
    grapheme_count(s)
}

/// Append trailing spaces to `line` until its display width reaches `target`.
pub fn pad_to_width(line: &String, target: usize) -> (r: String)
    requires
        space_extendable(line@),
    ensures
        cell_count(line@) <= target ==> cell_count(r@) == target && r@ == line@
            + crate::merge::spaces((target - cell_count(line@)) as nat),
        cell_count(line@) >= target ==> r@ == line@,
{
    let mut out = line.clone();
    let w = text_width(out.as_str());
    let mut k = w;
    proof {
        assert(out@ =~= line@ + crate::merge::spaces(0));
    }
    while k < target
        invariant
            cell_count(out@) == k,
            w == cell_count(line@),
            w <= k,
            k <= target || k == w,
            out@ == line@ + crate::merge::spaces((k - w) as nat),
            space_extendable(out@),
        decreases target - k,
    {
        push_space(&mut out);
        k = k + 1;
        proof {
            assert(out@ =~= line@ + crate::merge::spaces((k - w) as nat));
        }
    }
    out
}

} // verus!
