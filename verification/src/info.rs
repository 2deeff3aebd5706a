use vstd::prelude::*;
use vstd::string::{StrSliceExecFns, StringExecFns};
use crate::cli::Opt;
use crate::color::{colorize, decode_accent, hex_digits_of, rgb_of, tinted, ConfigError};
use crate::humanize::{humanize, humanize_checked, humanize_spec, NumericMode};
use crate::wrap::{str_views, wrapped_lines};

verus! {

/// The facts a banner can show, selectors into the host-facts provider.
#[derive(Clone, Copy, Debug, PartialEq, Eq, Structural)]
pub enum InfoType {
    UserAtHostname,
    Os,
    Kernel,
    Memory,
    Shell,
    Terminal,
    Processor,
    RootDisk,
}

/// The exact name under which a field is requested.
pub open spec fn info_type_name(t: InfoType) -> Seq<char> {
    match t {
        InfoType::UserAtHostname => "UserAtHostname"@,
        InfoType::Os => "Os"@,
        InfoType::Kernel => "Kernel"@,
        InfoType::Memory => "Memory"@,
        InfoType::Shell => "Shell"@,
        InfoType::Terminal => "Terminal"@,
        InfoType::Processor => "Processor"@,
        InfoType::RootDisk => "RootDisk"@,
    }
}

/// Whether a text is one of the eight recognized field names.
pub open spec fn is_info_type_name(s: Seq<char>) -> bool {
    s == "UserAtHostname"@ || s == "Os"@ || s == "Kernel"@ || s == "Memory"@ || s == "Shell"@ || s
        == "Terminal"@ || s == "Processor"@ || s == "RootDisk"@
}

fn eq_str(a: &str, b: &str) -> (r: bool)
    ensures
        r <==> a@ == b@,
{
    let s1 = a.to_owned();
    let s2 = b.to_owned();
    s1 == s2
}

/// Parse a field name. Exactly the eight names of the enumeration are
/// recognized; anything else fails with a configuration error.
pub fn parse_info_type(s: &str) -> (r: Result<InfoType, ConfigError>)
    ensures
        r is Ok <==> is_info_type_name(s@),
        r matches Ok(t) ==> info_type_name(t) == s@,
        r is Err ==> r == Err::<InfoType, ConfigError>(ConfigError::UnknownField),
{
    if eq_str(s, "UserAtHostname") {
        Ok(InfoType::UserAtHostname)
    } else if eq_str(s, "Os") {
        Ok(InfoType::Os)
    } else if eq_str(s, "Kernel") {
        Ok(InfoType::Kernel)
    } else if eq_str(s, "Memory") {
        Ok(InfoType::Memory)
    } else if eq_str(s, "Shell") {
        Ok(InfoType::Shell)
    } else if eq_str(s, "Terminal") {
        Ok(InfoType::Terminal)
    } else if eq_str(s, "Processor") {
        Ok(InfoType::Processor)
    } else if eq_str(s, "RootDisk") {
        Ok(InfoType::RootDisk)
    } else {
        Err(ConfigError::UnknownField)
    }
}

/// The canonical order of the eight fields, shown when none are requested.
pub fn default_fields() -> (r: Vec<InfoType>)
    ensures
        r@ == default_field_order(),
{
    let mut v: Vec<InfoType> = Vec::new();
    v.push(InfoType::UserAtHostname);
    v.push(InfoType::Os);
    v.push(InfoType::Kernel);
    v.push(InfoType::Memory);
    v.push(InfoType::Processor);
    v.push(InfoType::Shell);
    v.push(InfoType::Terminal);
    v.push(InfoType::RootDisk);
    proof {
        assert(v@ =~= default_field_order());
    }
    v
}

/// The canonical field order.
pub open spec fn default_field_order() -> Seq<InfoType> {
    seq![
        InfoType::UserAtHostname,
        InfoType::Os,
        InfoType::Kernel,
        InfoType::Memory,
        InfoType::Processor,
        InfoType::Shell,
        InfoType::Terminal,
        InfoType::RootDisk,
    ]
}

/// One immutable snapshot of the host facts a render pass may show. A `None`
/// stands for a fact the provider could not obtain. Used and total memory
/// come from one snapshot in the same unit (kilobytes), as do the available
/// and total space of the root disk (bytes).
#[derive(Clone, Debug)]
pub struct HostFacts {
    pub user: Option<String>,
    pub host_name: Option<String>,
    pub os_name: Option<String>,
    pub kernel_version: Option<String>,
    /// used and total memory, in kilobytes
    pub memory_kb: Option<(u64, u64)>,
    pub shell: Option<String>,
    pub terminal: Option<String>,
    pub cpu_brand: Option<String>,
    /// available and total space of the root disk, in bytes
    pub root_disk_bytes: Option<(u64, u64)>,
}

/// Kilobytes as hundredths of a megabyte, rounded to the nearest hundredth.
pub open spec fn centi_mb_of_kb(kb: nat) -> nat {
    (kb + 5) / 10
}

/// Bytes as hundredths of a gibibyte, rounded to the nearest hundredth.
pub open spec fn centi_gib_of_bytes(b: nat) -> nat {
    (b * 100 + 536870912) / 1073741824
}

/// Kilobytes to hundredths of a megabyte.
pub fn kb_to_centi_mb(kb: u64) -> (r: u64)
    ensures
        r as nat == centi_mb_of_kb(kb as nat),
{
    let x: u128 = (kb as u128 + 5) / 10;
    x as u64
}

/// Bytes to hundredths of a gibibyte.
pub fn bytes_to_centi_gib(b: u64) -> (r: u64)
    ensures
        r as nat == centi_gib_of_bytes(b as nat),
{
    let x: u128 = (b as u128 * 100 + 536870912) / 1073741824;
    proof {
        assert(x <= 0xffff_ffff_ffff_ffffu64) by (nonlinear_arith)
            requires
                x == (b as u128 * 100 + 536870912) / 1073741824,
                b <= 0xffff_ffff_ffff_ffffu64,
        ;
    }
    x as u64
}

/// The view of an optional owned string.
pub open spec fn opt_view(o: Option<String>) -> Option<Seq<char>> {
    match o {
        Some(s) => Some(s@),
        None => None,
    }
}

/// A colored label, one space, and the value text.
pub open spec fn labeled(label: Seq<char>, value: Seq<char>, c: (u8, u8, u8)) -> Seq<char> {
    tinted(label, c.0, c.1, c.2) + seq![' '] + value
}

/// The value text of a used/total pair: an already-rendered used part (a
/// formatted quantity, or a placeholder where the quantity is degenerate) and
/// the total rendered in the requested mode, around the unit's name.
pub open spec fn pair_text(
    used_text: Seq<char>,
    total_centi: nat,
    unit_sep: Seq<char>,
    unit_end: Seq<char>,
    mode: NumericMode,
) -> Seq<char> {
    used_text + unit_sep + humanize_spec(total_centi, mode) + unit_end
}

/// The rendered line of one field: `None` when the fact the field needs is
/// missing from the snapshot.
pub open spec fn field_line(
    t: InfoType,
    f: HostFacts,
    c: (u8, u8, u8),
    mode: NumericMode,
) -> Option<Seq<char>> {
    match t {
        InfoType::UserAtHostname => match (f.user, f.host_name) {
            (Some(u), Some(h)) => Some(
                tinted(u@, c.0, c.1, c.2) + seq!['@'] + tinted(h@, c.0, c.1, c.2),
            ),
            _ => None,
        },
        InfoType::Os => match f.os_name {
            Some(v) => Some(labeled("OS:"@, v@, c)),
            None => None,
        },
        InfoType::Kernel => match f.kernel_version {
            Some(v) => Some(labeled("Kernel:"@, v@, c)),
            None => None,
        },
        InfoType::Memory => match f.memory_kb {
            Some((used, total)) => Some(
                labeled(
                    "Memory:"@,
                    pair_text(
                        humanize_spec(centi_mb_of_kb(used as nat), mode),
                        centi_mb_of_kb(total as nat),
                        " Megabytes / "@,
                        " Megabytes"@,
                        mode,
                    ),
                    c,
                ),
            ),
            None => None,
        },
        InfoType::Shell => match f.shell {
            Some(v) => Some(labeled("Shell:"@, v@, c)),
            None => None,
        },
        InfoType::Terminal => match f.terminal {
            Some(v) => Some(labeled("Terminal:"@, v@, c)),
            None => None,
        },
        InfoType::Processor => match f.cpu_brand {
            Some(v) => Some(labeled("CPU:"@, v@, c)),
            None => None,
        },
        InfoType::RootDisk => match f.root_disk_bytes {
            Some((avail, total)) => Some(
                labeled(
                    "Disk:"@,
                    pair_text(
                        if avail <= total {
                            humanize_spec(centi_gib_of_bytes((total - avail) as nat), mode)
                        } else {
                            // used space would be negative: a formatting
                            // fault, recovered as a placeholder
                            seq!['?']
                        },
                        centi_gib_of_bytes(total as nat),
                        " Gibibytes / "@,
                        " Gibibytes"@,
                        mode,
                    ),
                    c,
                ),
            ),
            None => None,
        },
    }
}

/// Builds the list of rendered info lines for one render pass from an
/// immutable facts snapshot, a field selection, a label color, and the
/// numeric mode.
pub struct InfoBuilder {
    pub info: Vec<InfoType>,
    pub facts: HostFacts,
    pub word_color: (u8, u8, u8),
    pub numeric_mode: NumericMode,
}

impl InfoBuilder {
    /// A builder with no fields selected yet, white labels, and the numeric
    /// mode the options ask for.
    pub fn new(opt: &Opt, facts: HostFacts) -> (r: Self)
        ensures
            r.info@ == Seq::<InfoType>::empty(),
            r.facts == facts,
            r.word_color == (0xffu8, 0xffu8, 0xffu8),
            r.numeric_mode == (if opt.nums {
                NumericMode::Precise
            } else {
                NumericMode::Humanized
            }),
    {
        let numeric_mode = if opt.nums {
            NumericMode::Precise
        } else {
            NumericMode::Humanized
        };
        InfoBuilder { info: Vec::new(), facts, word_color: (0xff, 0xff, 0xff), numeric_mode }
    }

    /// Select one more field; fields render in the order they were added.
    pub fn add(&mut self, info_type: InfoType)
        ensures
            final(self).info@ == old(self).info@.push(info_type),
            final(self).facts == old(self).facts,
            final(self).word_color == old(self).word_color,
            final(self).numeric_mode == old(self).numeric_mode,
    {
        self.info.push(info_type);
    }

    /// Set the label color from a hex string; non-hex characters are
    /// stripped first, and anything but six remaining digits is rejected and
    /// leaves the builder unchanged.
    pub fn set_color(&mut self, hex: &str) -> (r: Result<(), ConfigError>)
        ensures
            r is Ok <==> hex_digits_of(hex@).len() == 6,
            r is Ok ==> (final(self).word_color.0 as nat, final(self).word_color.1 as nat, final(self).word_color.2 as nat) == rgb_of(hex_digits_of(hex@)),
            r is Err ==> *final(self) == *old(self) && r == Err::<(), ConfigError>(
                ConfigError::BadAccentColor,
            ),
            final(self).info == old(self).info,
            final(self).facts == old(self).facts,
            final(self).numeric_mode == old(self).numeric_mode,
    {
        match decode_accent(hex) {
            Ok(rgb) => {
                self.word_color = rgb;
                Ok(())
            },
            Err(e) => Err(e),
        }
    }

    fn get_user_at_host(&self) -> (r: Option<String>)
        ensures
            opt_view(r) == field_line(InfoType::UserAtHostname, self.facts, self.word_color, self.numeric_mode),
    {
        let c = self.word_color;
        match (&self.facts.user, &self.facts.host_name) {
            (Some(u), Some(h)) => {
                let mut out = colorize(u.as_str(), c.0, c.1, c.2);
                out.append("@");
                let tinted_host = colorize(h.as_str(), c.0, c.1, c.2);
                out.append(tinted_host.as_str());
                proof {
                    reveal_strlit("@");
                    assert(out@ =~= tinted(self.facts.user->0@, c.0, c.1, c.2) + seq!['@'] + tinted(
                        self.facts.host_name->0@,
                        c.0,
                        c.1,
                        c.2,
                    ));
                }
                Some(out)
            },
            _ => None,
        }
    }

    fn labeled_line(&self, label: &str, value: &str) -> (r: String)
        ensures
            r@ == labeled(label@, value@, self.word_color),
    {
        let c = self.word_color;
        let mut out = colorize(label, c.0, c.1, c.2);
        out.append(" ");
        out.append(value);
        proof {
            reveal_strlit(" ");
            assert(out@ =~= labeled(label@, value@, c));
        }
        out
    }

    fn get_os(&self) -> (r: Option<String>)
        ensures
            opt_view(r) == field_line(InfoType::Os, self.facts, self.word_color, self.numeric_mode),
    {
        match &self.facts.os_name {
            Some(v) => Some(self.labeled_line("OS:", v.as_str())),
            None => None,
        }
    }

    fn get_kernel(&self) -> (r: Option<String>)
        ensures
            opt_view(r) == field_line(InfoType::Kernel, self.facts, self.word_color, self.numeric_mode),
    {
        match &self.facts.kernel_version {
            Some(v) => Some(self.labeled_line("Kernel:", v.as_str())),
            None => None,
        }
    }

    fn get_shell(&self) -> (r: Option<String>)
        ensures
            opt_view(r) == field_line(InfoType::Shell, self.facts, self.word_color, self.numeric_mode),
    {
        match &self.facts.shell {
            Some(v) => Some(self.labeled_line("Shell:", v.as_str())),
            None => None,
        }
    }

    fn get_term(&self) -> (r: Option<String>)
        ensures
            opt_view(r) == field_line(InfoType::Terminal, self.facts, self.word_color, self.numeric_mode),
    {
        match &self.facts.terminal {
            Some(v) => Some(self.labeled_line("Terminal:", v.as_str())),
            None => None,
        }
    }

    fn get_cpu(&self) -> (r: Option<String>)
        ensures
            opt_view(r) == field_line(InfoType::Processor, self.facts, self.word_color, self.numeric_mode),
    {
        match &self.facts.cpu_brand {
            Some(v) => Some(self.labeled_line("CPU:", v.as_str())),
            None => None,
        }
    }

    fn pair_line(&self, label: &str, used_text: &str, total_centi: u64, unit_sep: &str, unit_end: &str) -> (r: String)
        ensures
            r@ == labeled(
                label@,
                pair_text(used_text@, total_centi as nat, unit_sep@, unit_end@, self.numeric_mode),
                self.word_color,
            ),
    {
        let ht = humanize(total_centi, self.numeric_mode);
        let mut value = used_text.to_owned();
        value.append(unit_sep);
        value.append(ht.as_str());
        value.append(unit_end);
        proof {
            assert(value@ =~= pair_text(
                used_text@,
                total_centi as nat,
                unit_sep@,
                unit_end@,
                self.numeric_mode,
            ));
        }
        self.labeled_line(label, value.as_str())
    }

    fn get_memory(&self) -> (r: Option<String>)
        ensures
            opt_view(r) == field_line(InfoType::Memory, self.facts, self.word_color, self.numeric_mode),
    {
        match &self.facts.memory_kb {
            Some(p) => {
                let used = humanize(kb_to_centi_mb(p.0), self.numeric_mode);
                let total = kb_to_centi_mb(p.1);
                Some(self.pair_line("Memory:", used.as_str(), total, " Megabytes / ", " Megabytes"))
            },
            None => None,
        }
    }

    fn get_root_disk(&self) -> (r: Option<String>)
        ensures
            opt_view(r) == field_line(InfoType::RootDisk, self.facts, self.word_color, self.numeric_mode),
    {
        match &self.facts.root_disk_bytes {
            Some(p) => {
                let avail = p.0;
                let total = p.1;
                // available space beyond the total would make the used space
                // negative: a formatting fault, recovered locally as a
                // placeholder for this one value
                let used_opt = if avail <= total {
                    Some(bytes_to_centi_gib(total - avail))
                } else {
                    None
                };
                let used = match humanize_checked(used_opt, self.numeric_mode) {
                    Ok(s) => s,
                    Err(_) => placeholder(),
                };
                let totalc = bytes_to_centi_gib(total);
                Some(self.pair_line("Disk:", used.as_str(), totalc, " Gibibytes / ", " Gibibytes"))
            },
            None => None,
        }
    }

    /// Render every selected field in order: `Some` with the composed line
    /// when the snapshot holds the facts the field needs, `None` when it
    /// does not.
    pub fn get(&self) -> (r: Vec<Option<String>>)
        ensures
            r@.len() == self.info@.len(),
            forall|i: int|
                0 <= i < r@.len() ==> opt_view(#[trigger] r@[i]) == field_line(
                    self.info@[i],
                    self.facts,
                    self.word_color,
                    self.numeric_mode,
                ),
    {
        let mut out: Vec<Option<String>> = Vec::new();
        let mut i: usize = 0;
        while i < self.info.len()
            invariant
                i <= self.info@.len(),
                out@.len() == i,
                forall|j: int|
                    0 <= j < i ==> opt_view(#[trigger] out@[j]) == field_line(
                        self.info@[j],
                        self.facts,
                        self.word_color,
                        self.numeric_mode,
                    ),
            decreases self.info@.len() - i,
        {
            let line = match self.info[i] {
                InfoType::UserAtHostname => self.get_user_at_host(),
                InfoType::Os => self.get_os(),
                InfoType::Kernel => self.get_kernel(),
                InfoType::Memory => self.get_memory(),
                InfoType::Shell => self.get_shell(),
                InfoType::Terminal => self.get_term(),
                InfoType::Processor => self.get_cpu(),
                InfoType::RootDisk => self.get_root_disk(),
            };
            out.push(line);
            i += 1;
        }
        out
    }
}

/// The width left for info fragments: the terminal width past the art
/// column, or nothing when the terminal is no wider than the column.
pub open spec fn wrap_limit(column_width: nat, terminal_width: nat) -> Option<nat> {
    if terminal_width > column_width {
        Some((terminal_width - column_width) as nat)
    } else {
        None
    }
}

/// The fragments one rendered info line contributes: a missing fact shows as
/// a `?` placeholder so its row is kept; a present line is word-wrapped when
/// the terminal leaves room past the art column, and kept whole when it does
/// not.
pub open spec fn line_fragments(l: Option<Seq<char>>, limit: Option<nat>) -> Seq<Seq<char>> {
    match l {
        None => seq![seq!['?']],
        Some(t) => match limit {
            None => seq![t],
            Some(w) => wrapped_lines(t, w),
        },
    }
}

/// All fragments of a list of rendered info lines, flattened in order.
pub open spec fn info_fragments(ls: Seq<Option<Seq<char>>>, limit: Option<nat>) -> Seq<Seq<char>>
    decreases ls.len(),
{
    if ls.len() == 0 {
        Seq::empty()
    } else {
        line_fragments(ls[0], limit) + info_fragments(ls.drop_first(), limit)
    }
}

/// The views of a list of optional owned strings.
pub open spec fn opt_views(ls: Seq<Option<String>>) -> Seq<Option<Seq<char>>> {
    ls.map_values(|l: Option<String>| opt_view(l))
}

/// Word-wrap the rendered info lines to the width left past the art column
/// and flatten the fragments in order; a missing fact keeps its row as a `?`
/// placeholder.
pub fn format_info(info: &Vec<Option<String>>, column_width: usize, terminal_width: usize) -> (r:
    Vec<String>)
    ensures
        str_views(r@) == info_fragments(
            opt_views(info@),
            wrap_limit(column_width as nat, terminal_width as nat),
        ),
{
    let ghost limit = wrap_limit(column_width as nat, terminal_width as nat);
    let ghost ls = opt_views(info@);
    let mut out: Vec<String> = Vec::new();
    let mut i: usize = 0;
    proof {
        assert(str_views(out@) =~= Seq::<Seq<char>>::empty());
        assert(ls.skip(0) =~= ls);
    }
    while i < info.len()
        invariant
            i <= info@.len(),
            ls == opt_views(info@),
            limit == wrap_limit(column_width as nat, terminal_width as nat),
            info_fragments(ls, limit) == str_views(out@) + info_fragments(ls.skip(i as int), limit),
        decreases info@.len() - i,
    {
        proof {
            assert(ls.skip(i as int)[0] == ls[i as int]);
            assert(ls.skip(i as int).drop_first() =~= ls.skip(i + 1));
            assert(ls[i as int] == opt_view(info@[i as int]));
        }
        let ghost frags = line_fragments(ls[i as int], limit);
        match &info[i] {
            Some(l) => {
                if terminal_width > column_width {
                    let pieces = crate::wrap::wrap_line(l.as_str(), terminal_width - column_width);
                    let mut j: usize = 0;
                    let ghost base = out@;
                    while j < pieces.len()
                        invariant
                            j <= pieces@.len(),
                            out@.len() == base.len() + j,
                            out@ =~= base + pieces@.take(j as int),
                        decreases pieces@.len() - j,
                    {
                        out.push(pieces[j].clone());
                        proof {
                            assert(out@ =~= base + pieces@.take(j + 1));
                        }
                        j += 1;
                    }
                    proof {
                        assert(pieces@.take(pieces@.len() as int) =~= pieces@);
                        assert(str_views(pieces@) == frags);
                        assert(str_views(out@) =~= str_views(base) + str_views(pieces@));
                    }
                } else {
                    let ghost base = out@;
                    out.push(l.clone());
                    proof {
                        assert(str_views(out@) =~= str_views(base) + frags);
                    }
                }
            },
            None => {
                let ghost base = out@;
                out.push(placeholder());
                proof {
                    assert(str_views(out@) =~= str_views(base) + frags);
                }
            },
        }
        proof {
            assert(str_views(out@) + info_fragments(ls.skip(i + 1), limit) =~= info_fragments(
                ls,
                limit,
            ));
        }
        i += 1;
    }
    proof {
        assert(ls.skip(info@.len() as int) =~= Seq::<Option<Seq<char>>>::empty());
    }
    out
}

/// The visible placeholder a missing fact renders as.
pub fn placeholder() -> (r: String)
    ensures
        r@ == seq!['?'],
{
    let s = String::from_str("?");
    proof {
        reveal_strlit("?");
        assert(s@ =~= seq!['?']);
    }
    s
}

} // verus!
