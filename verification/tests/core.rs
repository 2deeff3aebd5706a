use owo_colors::OwoColorize;
use owofetch::art::{parse_asset, prepare};
use owofetch::cli::Opt;
use owofetch::color::{decode_accent, decode_art_header, AssetError, ConfigError};
use owofetch::humanize::{humanize, humanize_checked, FormatError, NumericMode};
use owofetch::info::{format_info, parse_info_type, HostFacts, InfoBuilder, InfoType};
use owofetch::merge::{merge, render_row, MergedRow};
use owofetch::render::{render_banner, BannerError};
use owofetch::width::text_width;
use owofetch::wrap::wrap_line;

fn facts_none() -> HostFacts {
    HostFacts {
        user: None,
        host_name: None,
        os_name: None,
        kernel_version: None,
        memory_kb: None,
        shell: None,
        terminal: None,
        cpu_brand: None,
        root_disk_bytes: None,
    }
}

fn opt_default() -> Opt {
    Opt { color: String::from("#FFA500"), values: None, nums: false }
}

#[test]
fn width_counts_single_cell_text() {
    assert_eq!(text_width("hello world"), 11);
    assert_eq!(text_width("a"), 1);
}

#[test]
fn width_empty_is_zero() {
    assert_eq!(text_width(""), 0);
}

#[test]
fn width_counts_grapheme_cluster_once() {
    // 'e' followed by a combining acute accent: two code points, one cell
    let accented = "e\u{301}";
    assert_eq!(accented.chars().count(), 2);
    assert_eq!(text_width(accented), 1);
    let word = "cafe\u{301}";
    assert_eq!(text_width(word), 4);
}

#[test]
fn padding_makes_every_line_the_column_width() {
    let picture = vec![String::from("ab"), String::from(""), String::from("abcd")];
    let padded = prepare(&picture);
    assert_eq!(padded.column_width, 4 + 3);
    assert_eq!(padded.lines.len(), 3);
    for line in padded.lines.iter() {
        assert_eq!(text_width(line.as_str()), padded.column_width);
    }
    assert_eq!(padded.lines[0], "ab     ");
    assert_eq!(padded.lines[1], "       ");
    assert_eq!(padded.lines[2], "abcd   ");
}

#[test]
fn merge_emits_max_rows_art_longer() {
    let art = vec![String::from("a1"), String::from("a2"), String::from("a3")];
    let info = vec![String::from("i1")];
    let rows = merge(&art, &info);
    assert_eq!(rows.len(), 3);
    match &rows[0] {
        MergedRow::Both { art, info } => {
            assert_eq!(art, "a1");
            assert_eq!(info, "i1");
        },
        _ => panic!("row 0 must hold both segments"),
    }
    match &rows[1] {
        MergedRow::ArtOnly { art } => assert_eq!(art, "a2"),
        _ => panic!("row 1 must be art only"),
    }
    match &rows[2] {
        MergedRow::ArtOnly { art } => assert_eq!(art, "a3"),
        _ => panic!("row 2 must be art only"),
    }
}

#[test]
fn merge_emits_max_rows_info_longer() {
    let art = vec![String::from("a1")];
    let info = vec![String::from("i1"), String::from("i2")];
    let rows = merge(&art, &info);
    assert_eq!(rows.len(), 2);
    match &rows[0] {
        MergedRow::Both { .. } => {},
        _ => panic!("row 0 must hold both segments"),
    }
    match &rows[1] {
        MergedRow::InfoOnly { info } => assert_eq!(info, "i2"),
        _ => panic!("row 1 must be info only"),
    }
}

#[test]
fn info_only_row_keeps_alignment() {
    let row = MergedRow::InfoOnly { info: String::from("tail") };
    assert_eq!(render_row(&row, 5), "     tail");
    let row = MergedRow::Both { art: String::from("art  "), info: String::from("i") };
    assert_eq!(render_row(&row, 5), "art  i");
}

#[test]
fn humanize_about_fifty() {
    // 50 units, carried as hundredths
    assert_eq!(humanize(5000, NumericMode::Humanized), "About fifty");
}

#[test]
fn humanize_rounds_magnitude() {
    // 128000 units: divided down to 12.8, rounded to 13, scaled back up
    let s = humanize(12_800_000, NumericMode::Humanized);
    assert!(s.starts_with("About "), "got: {}", s);
    assert_eq!(s, "About one hundred and thirty thousand");
}

#[test]
fn humanize_divides_on_the_exact_value() {
    // 990.00 units needs one division (99.0), 990.05 needs two: the exact
    // quantity is compared against the 99-unit threshold, not a floored one
    assert_eq!(humanize(99_000, NumericMode::Humanized), "About nine hundred and ninety");
    assert_eq!(humanize(99_005, NumericMode::Humanized), "About one thousand");
}

#[test]
fn humanize_small_is_spelled_exactly() {
    assert_eq!(humanize(300, NumericMode::Humanized), "About three");
    assert_eq!(humanize(0, NumericMode::Humanized), "About zero");
}

#[test]
fn humanize_precise_two_decimals() {
    // 1234.567 rounds to 1234.57 hundredths-of-a-unit on the way in
    assert_eq!(humanize(123457, NumericMode::Precise), "1234.57");
    assert_eq!(humanize(5, NumericMode::Precise), "0.05");
    assert_eq!(humanize(100, NumericMode::Precise), "1.00");
}

#[test]
fn humanize_checked_rejects_degenerate() {
    assert_eq!(humanize_checked(None, NumericMode::Precise), Err(FormatError));
    assert_eq!(humanize_checked(Some(123457), NumericMode::Precise), Ok(String::from("1234.57")));
}

#[test]
fn hex_decode_round_trip() {
    assert_eq!(decode_accent("#FFA500"), Ok((255, 165, 0)));
    assert_eq!(decode_accent("ffa500"), Ok((255, 165, 0)));
    assert_eq!(decode_accent("bad"), Err(ConfigError::BadAccentColor));
    assert_eq!(decode_accent(""), Err(ConfigError::BadAccentColor));
}

#[test]
fn art_header_must_be_exactly_six_digits() {
    assert_eq!(decode_art_header("FFA500"), Ok((255, 165, 0)));
    assert_eq!(decode_art_header("00ff00"), Ok((0, 255, 0)));
    assert_eq!(decode_art_header("#FFA500"), Err(AssetError));
    assert_eq!(decode_art_header("FFA50"), Err(AssetError));
    assert_eq!(decode_art_header("FFA50G"), Err(AssetError));
}

#[test]
fn parse_recognizes_exactly_the_eight_fields() {
    assert_eq!(parse_info_type("UserAtHostname"), Ok(InfoType::UserAtHostname));
    assert_eq!(parse_info_type("Os"), Ok(InfoType::Os));
    assert_eq!(parse_info_type("Kernel"), Ok(InfoType::Kernel));
    assert_eq!(parse_info_type("Memory"), Ok(InfoType::Memory));
    assert_eq!(parse_info_type("Shell"), Ok(InfoType::Shell));
    assert_eq!(parse_info_type("Terminal"), Ok(InfoType::Terminal));
    assert_eq!(parse_info_type("Processor"), Ok(InfoType::Processor));
    assert_eq!(parse_info_type("RootDisk"), Ok(InfoType::RootDisk));
    assert_eq!(parse_info_type("Disk"), Err(ConfigError::UnknownField));
    assert_eq!(parse_info_type(""), Err(ConfigError::UnknownField));
}

#[test]
fn wrap_splits_at_whitespace_and_fits() {
    let frags = wrap_line("one two three four", 9);
    assert_eq!(frags, vec!["one two", "three", "four"]);
    for f in frags.iter() {
        assert!(text_width(f.as_str()) <= 9);
    }
}

#[test]
fn wrap_collapses_runs_of_spaces() {
    let frags = wrap_line("  a   b  ", 80);
    assert_eq!(frags, vec!["a b"]);
}

#[test]
fn wrap_leaves_a_long_word_alone() {
    let frags = wrap_line("abcdefghij xy", 4);
    assert_eq!(frags, vec!["abcdefghij", "xy"]);
}

#[test]
fn narrow_terminal_keeps_lines_whole() {
    let lines = vec![Some(String::from("alpha beta gamma delta"))];
    // terminal no wider than the art column: degrade to one unwrapped fragment
    let rendered = format_info(&lines, 10, 8);
    assert_eq!(rendered, vec!["alpha beta gamma delta"]);
    let rendered = format_info(&lines, 10, 10);
    assert_eq!(rendered, vec!["alpha beta gamma delta"]);
}

#[test]
fn missing_fact_renders_as_placeholder() {
    let opt = opt_default();
    let mut builder = InfoBuilder::new(&opt, facts_none());
    builder.add(InfoType::Shell);
    let lines = builder.get();
    assert_eq!(lines.len(), 1);
    assert!(lines[0].is_none());
    let rendered = format_info(&lines, 10, 80);
    assert_eq!(rendered, vec!["?"]);
}

#[test]
fn info_line_composes_label_and_value() {
    let opt = opt_default();
    let mut facts = facts_none();
    facts.os_name = Some(String::from("TestOS"));
    let mut builder = InfoBuilder::new(&opt, facts);
    builder.add(InfoType::Os);
    let lines = builder.get();
    let expected = format!("{} TestOS", "OS:".color(owo_colors::Rgb(255, 255, 255)));
    assert_eq!(lines[0].as_deref(), Some(expected.as_str()));
}

#[test]
fn set_color_tints_the_labels() {
    let opt = opt_default();
    let mut facts = facts_none();
    facts.shell = Some(String::from("/bin/sh"));
    let mut builder = InfoBuilder::new(&opt, facts);
    assert!(builder.set_color("#00FF00").is_ok());
    builder.add(InfoType::Shell);
    let lines = builder.get();
    let expected = format!("{} /bin/sh", "Shell:".color(owo_colors::Rgb(0, 255, 0)));
    assert_eq!(lines[0].as_deref(), Some(expected.as_str()));
}

#[test]
fn set_color_rejects_malformed_hex() {
    let opt = opt_default();
    let mut builder = InfoBuilder::new(&opt, facts_none());
    assert_eq!(builder.set_color("bad"), Err(ConfigError::BadAccentColor));
}

#[test]
fn memory_line_uses_precise_numbers_when_asked() {
    let mut opt = opt_default();
    opt.nums = true;
    let mut facts = facts_none();
    // 1,234,567 kB used of 2,000,000 kB: 1234.57 MB of 2000.00 MB
    facts.memory_kb = Some((1_234_567, 2_000_000));
    let mut builder = InfoBuilder::new(&opt, facts);
    builder.add(InfoType::Memory);
    let lines = builder.get();
    let expected = format!(
        "{} 1234.57 Megabytes / 2000.00 Megabytes",
        "Memory:".color(owo_colors::Rgb(255, 255, 255))
    );
    assert_eq!(lines[0].as_deref(), Some(expected.as_str()));
}

#[test]
fn disk_line_subtracts_available_from_total() {
    let mut opt = opt_default();
    opt.nums = true;
    let mut facts = facts_none();
    // total 4 GiB, available 1 GiB: used 3.00 of 4.00
    let gib: u64 = 1 << 30;
    facts.root_disk_bytes = Some((gib, 4 * gib));
    let mut builder = InfoBuilder::new(&opt, facts);
    builder.add(InfoType::RootDisk);
    let lines = builder.get();
    let expected = format!(
        "{} 3.00 Gibibytes / 4.00 Gibibytes",
        "Disk:".color(owo_colors::Rgb(255, 255, 255))
    );
    assert_eq!(lines[0].as_deref(), Some(expected.as_str()));
}

#[test]
fn disk_line_with_impossible_available_shows_placeholder() {
    let mut opt = opt_default();
    opt.nums = true;
    let mut facts = facts_none();
    // more space available than the disk holds: the used quantity would be
    // negative and renders as the placeholder
    let gib: u64 = 1 << 30;
    facts.root_disk_bytes = Some((5 * gib, 4 * gib));
    let mut builder = InfoBuilder::new(&opt, facts);
    builder.add(InfoType::RootDisk);
    let lines = builder.get();
    let expected = format!(
        "{} ? Gibibytes / 4.00 Gibibytes",
        "Disk:".color(owo_colors::Rgb(255, 255, 255))
    );
    assert_eq!(lines[0].as_deref(), Some(expected.as_str()));
}

#[test]
fn parse_asset_reads_header_and_picture() {
    let asset = parse_asset("ff0000\n##\n#\n").unwrap();
    assert_eq!(asset.accent, (255, 0, 0));
    assert_eq!(asset.picture_lines, vec!["##", "#"]);
    assert!(parse_asset("nothex\n##\n").is_err());
}

#[test]
fn banner_merges_art_and_info() {
    let mut opt = opt_default();
    opt.values = Some(vec![InfoType::Shell]);
    let mut facts = facts_none();
    facts.shell = Some(String::from("/bin/bash"));
    let rows = render_banner("ff0000\n##\n#\n", &opt, facts, 80).unwrap();
    assert_eq!(rows.len(), 2);
    let art0 = format!("{}", "##   ".color(owo_colors::Rgb(255, 0, 0)));
    let art1 = format!("{}", "#    ".color(owo_colors::Rgb(255, 0, 0)));
    let info0 = format!("{} /bin/bash", "Shell:".color(owo_colors::Rgb(255, 165, 0)));
    assert_eq!(rows[0], format!("{}{}", art0, info0));
    assert_eq!(rows[1], art1);
}

#[test]
fn banner_fails_fast_on_bad_header() {
    let opt = opt_default();
    let r = render_banner("nothex\n##\n", &opt, facts_none(), 80);
    assert_eq!(r, Err(BannerError::Asset(AssetError)));
}

#[test]
fn banner_fails_fast_on_bad_accent() {
    let mut opt = opt_default();
    opt.color = String::from("zz");
    let r = render_banner("ff0000\n##\n", &opt, facts_none(), 80);
    assert_eq!(r, Err(BannerError::Config(ConfigError::BadAccentColor)));
}
