use vstd::prelude::*;
use crate::art::{lines_of, max_cells, parse_asset, prepare};
use crate::cli::Opt;
use crate::color::{colorize, hex_digits_of, is_hex6, rgb_of, tinted, AssetError, ConfigError};
use crate::humanize::NumericMode;
use crate::info::{
    default_field_order, field_line, format_info, info_fragments, opt_views, wrap_limit, HostFacts,
    InfoBuilder, InfoType,
};
use crate::merge::{max_nat, merge, render_row, render_row_spec, spaces, MergedRow};
use crate::width::{cell_count, space_extendable};
use crate::wrap::str_views;

verus! {

/// A fatal startup fault: the embedded art's header is not valid hex, or the
/// user-supplied accent color cannot be parsed. Either aborts the render
/// before any output.
#[derive(Clone, Copy, Debug, PartialEq, Eq, Structural)]
pub enum BannerError {
    Asset(AssetError),
    Config(ConfigError),
}

/// The numeric mode the options select.
pub open spec fn spec_mode(opt: Opt) -> NumericMode {
    if opt.nums {
        NumericMode::Precise
    } else {
        NumericMode::Humanized
    }
}

/// The fields the options select, in order: the requested ones, or all eight
/// in canonical order.
pub open spec fn spec_fields(opt: Opt) -> Seq<InfoType> {
    match opt.values {
        Some(v) => v@,
        None => default_field_order(),
    }
}

/// An RGB triple of byte values as bytes.
pub open spec fn u8_rgb(t: (nat, nat, nat)) -> (u8, u8, u8) {
    (t.0 as u8, t.1 as u8, t.2 as u8)
}

/// Each picture line padded with trailing spaces to the column width.
pub open spec fn padded_views(pic: Seq<Seq<char>>, cw: nat) -> Seq<Seq<char>> {
    Seq::new(pic.len(), |i: int| pic[i] + spaces((cw - cell_count(pic[i])) as nat))
}

/// Each line wrapped in the escape codes of the accent color.
pub open spec fn tinted_views(ls: Seq<Seq<char>>, c: (u8, u8, u8)) -> Seq<Seq<char>> {
    Seq::new(ls.len(), |i: int| tinted(ls[i], c.0, c.1, c.2))
}

/// The merged banner rows: by position, an art row next to an info row, an
/// art row alone, or a blank art column before an info row.
pub open spec fn merged_views(art: Seq<Seq<char>>, info: Seq<Seq<char>>, cw: nat) -> Seq<
    Seq<char>,
> {
    Seq::new(
        max_nat(art.len(), info.len()),
        |i: int|
            if i < art.len() && i < info.len() {
                art[i] + info[i]
            } else if i < art.len() {
                art[i]
            } else {
                spaces(cw) + info[i]
            },
    )
}

/// The full banner for an art text, options, and a facts snapshot at a
/// terminal width: the art column padded, tinted with the art's own header
/// color, merged with the labeled, wrapped info lines.
pub open spec fn banner_lines(text: Seq<char>, opt: Opt, f: HostFacts, tw: nat) -> Seq<Seq<char>> {
    let pic = lines_of(text).drop_first();
    let accent = u8_rgb(rgb_of(lines_of(text)[0]));
    let cw = max_cells(pic) + 3;
    let art_colored = tinted_views(padded_views(pic, cw), accent);
    let word = u8_rgb(rgb_of(hex_digits_of(opt.color@)));
    let lines = Seq::new(
        spec_fields(opt).len(),
        |i: int| field_line(spec_fields(opt)[i], f, word, spec_mode(opt)),
    );
    let frags = info_fragments(lines, wrap_limit(cw, tw));
    merged_views(art_colored, frags, cw)
}

/// Render the whole banner: decode the art header and the configured label
/// color (both fatal on failure, before any output), pad and tint the art,
/// compose and wrap the info lines, and merge the two columns.
pub fn render_banner(art_text: &str, opt: &Opt, facts: HostFacts, terminal_width: usize) -> (r:
    Result<Vec<String>, BannerError>)
    requires
        forall|i: int|
            0 <= i < lines_of(art_text@).drop_first().len() ==> space_extendable(
                #[trigger] lines_of(art_text@).drop_first()[i],
            ),
        forall|i: int|
            0 <= i < lines_of(art_text@).drop_first().len() ==> (#[trigger] lines_of(
                art_text@,
            ).drop_first()[i]).len() + 3 <= usize::MAX,
    ensures
        r is Ok <==> is_hex6(lines_of(art_text@)[0]) && hex_digits_of(opt.color@).len() == 6,
        !is_hex6(lines_of(art_text@)[0]) ==> r == Err::<Vec<String>, BannerError>(
            BannerError::Asset(AssetError),
        ),
        is_hex6(lines_of(art_text@)[0]) && hex_digits_of(opt.color@).len() != 6 ==> r == Err::<
            Vec<String>,
            BannerError,
        >(BannerError::Config(ConfigError::BadAccentColor)),
        r matches Ok(rows) ==> str_views(rows@) == banner_lines(
            art_text@,
            *opt,
            facts,
            terminal_width as nat,
        ),
{
    let asset = match parse_asset(art_text) {
        Ok(a) => a,
        Err(e) => {
            return Err(BannerError::Asset(e));
        },
    };
    let mut builder = InfoBuilder::new(opt, facts);
    match builder.set_color(opt.color.as_str()) {
        Ok(_) => {},
        Err(e) => {
            return Err(BannerError::Config(e));
        },
    }
    match &opt.values {
        Some(v) => {
            let mut j: usize = 0;
            while j < v.len()
                invariant
                    j <= v@.len(),
                    builder.info@ == v@.take(j as int),
                    builder.facts == facts,
                    builder.numeric_mode == spec_mode(*opt),
                    (builder.word_color.0 as nat, builder.word_color.1 as nat, builder.word_color.2
                        as nat) == rgb_of(hex_digits_of(opt.color@)),
                decreases v@.len() - j,
            {
                builder.add(v[j]);
                proof {
                    assert(builder.info@ =~= v@.take(j + 1));
                }
                j += 1;
            }
            proof {
                assert(v@.take(v@.len() as int) =~= v@);
            }
        },
        None => {
            let d = crate::info::default_fields();
            let mut j: usize = 0;
            while j < d.len()
                invariant
                    j <= d@.len(),
                    d@ == default_field_order(),
                    builder.info@ == d@.take(j as int),
                    builder.facts == facts,
                    builder.numeric_mode == spec_mode(*opt),
                    (builder.word_color.0 as nat, builder.word_color.1 as nat, builder.word_color.2
                        as nat) == rgb_of(hex_digits_of(opt.color@)),
                decreases d@.len() - j,
            {
                builder.add(d[j]);
                proof {
                    assert(builder.info@ =~= d@.take(j + 1));
                }
                j += 1;
            }
            proof {
                assert(d@.take(d@.len() as int) =~= d@);
            }
        },
    }
    proof {
        assert(builder.info@ == spec_fields(*opt));
    }
    let ghost pic = lines_of(art_text@).drop_first();
    proof {
        assert(str_views(asset.picture_lines@) == pic);
        assert forall|i: int| 0 <= i < asset.picture_lines@.len() implies space_extendable(
            (#[trigger] asset.picture_lines@[i])@,
        ) && asset.picture_lines@[i]@.len() + 3 <= usize::MAX by {
            assert(asset.picture_lines@[i]@ == str_views(asset.picture_lines@)[i]);
        }
    }
    let padded = prepare(&asset.picture_lines);
    let cw = padded.column_width;
    proof {
        assert(str_views(padded.lines@) =~= padded_views(pic, cw as nat));
    }
    let info_lines = builder.get();
    let ghost word = u8_rgb(rgb_of(hex_digits_of(opt.color@)));
    let ghost lines = Seq::new(
        spec_fields(*opt).len(),
        |i: int| field_line(spec_fields(*opt)[i], facts, word, spec_mode(*opt)),
    );
    proof {
        assert(builder.word_color == word);
        assert(opt_views(info_lines@) =~= lines);
    }
    let frags = format_info(&info_lines, cw, terminal_width);
    let mut art_colored: Vec<String> = Vec::new();
    let mut i: usize = 0;
    let ghost accent = asset.accent;
    while i < padded.lines.len()
        invariant
            i <= padded.lines@.len(),
            accent == asset.accent,
            art_colored@.len() == i,
            forall|j: int|
                0 <= j < i ==> (#[trigger] art_colored@[j])@ == tinted(
                    padded.lines@[j]@,
                    accent.0,
                    accent.1,
                    accent.2,
                ),
        decreases padded.lines@.len() - i,
    {
        let t = colorize(padded.lines[i].as_str(), asset.accent.0, asset.accent.1, asset.accent.2);
        art_colored.push(t);
        i += 1;
    }
    proof {
        assert(str_views(art_colored@) =~= tinted_views(padded_views(pic, cw as nat), accent));
        assert(u8_rgb(rgb_of(lines_of(art_text@)[0])) == accent);
    }
    let rows = merge(&art_colored, &frags);
    let mut out: Vec<String> = Vec::new();
    let mut k: usize = 0;
    while k < rows.len()
        invariant
            k <= rows@.len(),
            out@.len() == k,
            forall|j: int|
                0 <= j < k ==> (#[trigger] out@[j])@ == render_row_spec(rows@[j], cw as nat),
        decreases rows@.len() - k,
    {
        let line = render_row(&rows[k], cw);
        out.push(line);
        k += 1;
    }
    proof {
        let artv = str_views(art_colored@);
        let fragv = str_views(frags@);
        let m = artv.len() as int;
        let n = fragv.len() as int;
        assert forall|j: int| 0 <= j < out@.len() implies (#[trigger] out@[j])@ == merged_views(
            artv,
            fragv,
            cw as nat,
        )[j] by {
            let row = rows@[j];
            assert(out@[j]@ == render_row_spec(row, cw as nat));
            if j < m && j < n {
                assert(row.art_view() == Some(artv[j]));
                assert(row.info_view() == Some(fragv[j]));
                match row {
                    MergedRow::Both { art, info } => {
                        assert(art@ == artv[j] && info@ == fragv[j]);
                    },
                    MergedRow::ArtOnly { art } => {
                        assert(false);
                    },
                    MergedRow::InfoOnly { info } => {
                        assert(false);
                    },
                }
            } else if j < m {
                assert(row.art_view() == Some(artv[j]));
                assert(row.info_view() == None::<Seq<char>>);
                match row {
                    MergedRow::Both { art, info } => {
                        assert(false);
                    },
                    MergedRow::ArtOnly { art } => {
                        assert(art@ == artv[j]);
                    },
                    MergedRow::InfoOnly { info } => {
                        assert(false);
                    },
                }
            } else {
                assert(row.art_view() == None::<Seq<char>>);
                assert(row.info_view() == Some(fragv[j]));
                match row {
                    MergedRow::Both { art, info } => {
                        assert(false);
                    },
                    MergedRow::ArtOnly { art } => {
                        assert(false);
                    },
                    MergedRow::InfoOnly { info } => {
                        assert(info@ == fragv[j]);
                    },
                }
            }
        }
        assert(str_views(out@) =~= merged_views(artv, fragv, cw as nat));
        assert(str_views(out@) =~= banner_lines(art_text@, *opt, facts, terminal_width as nat));
    }
    Ok(out)
}

} // verus!
