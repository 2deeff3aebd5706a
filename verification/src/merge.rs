use vstd::prelude::*;

verus! {

/// One row of the merged banner. The art block and the info block have
/// unrelated lengths, so a row holds an art segment, an info segment, or both.
#[derive(Debug)]
pub enum MergedRow {
    Both { art: String, info: String },
    ArtOnly { art: String },
    InfoOnly { info: String },
}

impl MergedRow {
    /// The art segment of this row, if the row has one.
    pub open spec fn art_view(self) -> Option<Seq<char>> {
        match self {
            MergedRow::Both { art, info } => Some(art@),
            MergedRow::ArtOnly { art } => Some(art@),
            MergedRow::InfoOnly { info } => None,
        }
    }

    /// The info segment of this row, if the row has one.
    pub open spec fn info_view(self) -> Option<Seq<char>> {
        match self {
            MergedRow::Both { art, info } => Some(info@),
            MergedRow::ArtOnly { art } => None,
            MergedRow::InfoOnly { info } => Some(info@),
        }
    }
}

pub open spec fn max_nat(m: nat, n: nat) -> nat {
    if m >= n { m } else { n }
}

/// Zip the padded art lines with the info lines by position; whichever side is
/// longer keeps emitting alone. The result has exactly `max(m, n)` rows, and
/// every row below `min(m, n)` carries both segments.
pub fn merge(art: &Vec<String>, info: &Vec<String>) -> (r: Vec<MergedRow>)
    ensures
        r@.len() == max_nat(art@.len(), info@.len()),
        forall|i: int|
            0 <= i < r@.len() ==> (#[trigger] r@[i].art_view()) == (if i < art@.len() {
                Some(art@[i]@)
            } else {
                None::<Seq<char>>
            }),
        forall|i: int|
            0 <= i < r@.len() ==> (#[trigger] r@[i].info_view()) == (if i < info@.len() {
                Some(info@[i]@)
            } else {
                None::<Seq<char>>
            }),
{
    let m = art.len();
    let n = info.len();
    let rows = if m >= n {
        m
    } else {
        n
    };
    let mut out: Vec<MergedRow> = Vec::new();
    let mut i: usize = 0;
    while i < rows
        invariant
            rows == max_nat(art@.len(), info@.len()),
            m == art@.len(),
            n == info@.len(),
            i <= rows,
            out@.len() == i,
            forall|j: int|
                0 <= j < i ==> (#[trigger] out@[j].art_view()) == (if j < art@.len() {
                    Some(art@[j]@)
                } else {
                    None::<Seq<char>>
                }),
            forall|j: int|
                0 <= j < i ==> (#[trigger] out@[j].info_view()) == (if j < info@.len() {
                    Some(info@[j]@)
                } else {
                    None::<Seq<char>>
                }),
        decreases rows - i,
    {
        let row = if i < m && i < n {
            MergedRow::Both { art: art[i].clone(), info: info[i].clone() }
        } else if i < m {
            MergedRow::ArtOnly { art: art[i].clone() }
        } else {
            MergedRow::InfoOnly { info: info[i].clone() }
        };
        out.push(row);
        i += 1;
    }
    out
}

/// A run of `n` spaces.
pub open spec fn spaces(n: nat) -> Seq<char> {
    Seq::new(n, |i| ' ')
}

/// What `render_row` prints for one merged row: both segments side by side, the
/// art segment alone, or the info segment behind a blank art column.
pub open spec fn render_row_spec(row: MergedRow, column_width: nat) -> Seq<char> {
    match row {
        MergedRow::Both { art, info } => art@ + info@,
        MergedRow::ArtOnly { art } => art@,
        MergedRow::InfoOnly { info } => spaces(column_width) + info@,
    }
}

/// A string of exactly `n` spaces.
pub fn blank(n: usize) -> (r: String)
    ensures
        r@ == spaces(n as nat),
{
    let mut out = String::new();
    let mut i: usize = 0;
    proof {
        reveal_strlit(" ");
        assert(out@ =~= spaces(0));
    }
    while i < n
        invariant
            i <= n,
            out@ == spaces(i as nat),
        decreases n - i,
    {
        out.append(" ");
        i += 1;
        proof {
            reveal_strlit(" ");
            assert(" "@ =~= seq![' ']);
            assert(out@ =~= spaces(i as nat));
        }
    }
    out
}

/// Flatten one merged row into the single line of text that is printed for it.
/// An info-only row is preceded by a blank art column so alignment is kept.
pub fn render_row(row: &MergedRow, column_width: usize) -> (r: String)
    ensures
        r@ == render_row_spec(*row, column_width as nat),
{
    match row {
        MergedRow::Both { art, info } => {
            let mut out = art.clone();
            out.append(info.as_str());
            out
        },
        MergedRow::ArtOnly { art } => art.clone(),
        MergedRow::InfoOnly { info } => {
            let mut out = blank(column_width);
            out.append(info.as_str());
            out
        },
    }
}

} // verus!
