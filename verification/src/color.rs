use owo_colors::OwoColorize;
use vstd::prelude::*;
use vstd::string::StrSliceExecFns;

verus! {

/// A user-supplied accent color failed to parse, or an info field name was
/// not recognized.
#[derive(Clone, Copy, Debug, PartialEq, Eq, Structural)]
pub enum ConfigError {
    BadAccentColor,
    UnknownField,
}

/// The embedded art's header line is not six hex digits.
#[derive(Clone, Copy, Debug, PartialEq, Eq, Structural)]
pub struct AssetError;

/// An ASCII hex digit, either case.
pub open spec fn is_hex_digit(c: char) -> bool {
    let u = c as u32;
    (0x30 <= u <= 0x39) || (0x41 <= u <= 0x46) || (0x61 <= u <= 0x66)
}

/// The value of one hex digit.
pub open spec fn hex_val(c: char) -> nat {
    let u = c as u32;
    if 0x30 <= u <= 0x39 {
        (u - 0x30) as nat
    } else if 0x41 <= u <= 0x46 {
        (u - 0x41 + 10) as nat
    } else {
        (u - 0x61 + 10) as nat
    }
}

/// The byte two hex digits spell.
pub open spec fn hex_byte(hi: char, lo: char) -> nat {
    16 * hex_val(hi) + hex_val(lo)
}

/// The hex digits of a text, with everything else stripped.
pub open spec fn hex_digits_of(s: Seq<char>) -> Seq<char> {
    s.filter(|c: char| is_hex_digit(c))
}

/// Whether a text is exactly six hex digits.
pub open spec fn is_hex6(s: Seq<char>) -> bool {
    s.len() == 6 && forall|i: int| 0 <= i < 6 ==> is_hex_digit(#[trigger] s[i])
}

/// The RGB triple six hex digits spell.
pub open spec fn rgb_of(d: Seq<char>) -> (nat, nat, nat) {
    (hex_byte(d[0], d[1]), hex_byte(d[2], d[3]), hex_byte(d[4], d[5]))
}

fn hex_digit_value(c: char) -> (r: Option<u8>)
    ensures
        r is Some <==> is_hex_digit(c),
        is_hex_digit(c) ==> (r matches Some(v) && v == hex_val(c) && v < 16),
{
    let u = c as u32;
    if 0x30 <= u && u <= 0x39 {
        Some((u - 0x30) as u8)
    } else if 0x41 <= u && u <= 0x46 {
        Some((u - 0x41 + 10) as u8)
    } else if 0x61 <= u && u <= 0x66 {
        Some((u - 0x61 + 10) as u8)
    } else {
        None
    }
}

/// Decode a user-supplied accent color: a `#RRGGBB` string, the `#` optional,
/// case-insensitive, with every character that is not a hex digit stripped
/// before decoding. Exactly six hex digits must remain, or the color is
/// rejected.
pub fn decode_accent(s: &str) -> (r: Result<(u8, u8, u8), ConfigError>)
    ensures
        r is Ok <==> hex_digits_of(s@).len() == 6,
        r matches Ok(t) ==> (t.0 as nat, t.1 as nat, t.2 as nat) == rgb_of(hex_digits_of(s@)),
        r is Err ==> r == Err::<(u8, u8, u8), ConfigError>(ConfigError::BadAccentColor),
{
    let n = s.unicode_len();
    let mut vals: Vec<u8> = Vec::new();
    let ghost mut ds: Seq<char> = Seq::empty();
    let mut i: usize = 0;
    proof {
        reveal_with_fuel(Seq::<_>::filter, 2);
        assert(s@.take(0) =~= Seq::<char>::empty());
        assert(hex_digits_of(s@.take(0)) =~= Seq::<char>::empty());
    }
    while i < n
        invariant
            i <= n,
            n == s@.len(),
            ds == hex_digits_of(s@.take(i as int)),
            vals@.len() == ds.len(),
            forall|j: int| 0 <= j < ds.len() ==> (#[trigger] vals@[j]) == hex_val(ds[j]) && vals@[j]
                < 16,
        decreases n - i,
    {
        let c = s.get_char(i);
        proof {
            reveal_with_fuel(Seq::<_>::filter, 2);
            assert(s@.take(i + 1).drop_last() =~= s@.take(i as int));
            assert(s@.take(i + 1).last() == s@[i as int]);
        }
        match hex_digit_value(c) {
            Some(v) => {
                vals.push(v);
                proof {
                    ds = ds.push(c);
                    assert(hex_digits_of(s@.take(i + 1)) =~= ds);
                }
            },
            None => {
                proof {
                    assert(hex_digits_of(s@.take(i + 1)) =~= ds);
                }
            },
        }
        i += 1;
    }
    proof {
        assert(s@.take(n as int) =~= s@);
    }
    if vals.len() == 6 {
        let r = vals[0] * 16 + vals[1];
        let g = vals[2] * 16 + vals[3];
        let b = vals[4] * 16 + vals[5];
        Ok((r, g, b))
    } else {
        Err(ConfigError::BadAccentColor)
    }
}

/// Decode the art header line: exactly six hex digits, nothing else.
pub fn decode_art_header(s: &str) -> (r: Result<(u8, u8, u8), AssetError>)
    ensures
        r is Ok <==> is_hex6(s@),
        r matches Ok(t) ==> (t.0 as nat, t.1 as nat, t.2 as nat) == rgb_of(s@),
        r is Err ==> r == Err::<(u8, u8, u8), AssetError>(AssetError),
{
    let n = s.unicode_len();
    if n != 6 {
        return Err(AssetError);
    }
    let mut vals: Vec<u8> = Vec::new();
    let mut i: usize = 0;
    while i < 6
        invariant
            i <= 6,
            n == s@.len(),
            n == 6,
            vals@.len() == i,
            forall|j: int| 0 <= j < i ==> is_hex_digit(#[trigger] s@[j]),
            forall|j: int| 0 <= j < i ==> (#[trigger] vals@[j]) == hex_val(s@[j]) && vals@[j] < 16,
        decreases 6 - i,
    {
        let c = s.get_char(i);
        match hex_digit_value(c) {
            Some(v) => vals.push(v),
            None => {
                return Err(AssetError);
            },
        }
        i += 1;
    }
    let r = vals[0] * 16 + vals[1];
    let g = vals[2] * 16 + vals[3];
    let b = vals[4] * 16 + vals[5];
    Ok((r, g, b))
}

/// The text a colorizing primitive produces: the input wrapped in the escape
/// codes for the given RGB triple. It depends on the text and the triple
/// alone.
pub uninterp spec fn tinted(s: Seq<char>, red: u8, green: u8, blue: u8) -> Seq<char>;

/// Relies on owo_colors::OwoColorize::color with an owo_colors::Rgb value:
/// the text surrounded by the color escape sequence for that RGB triple, a
/// function of the text and the triple alone.
#[verifier::external_body]
pub(crate) fn colorize(s: &str, red: u8, green: u8, blue: u8) -> (t: String)
    ensures
        t@ == tinted(s@, red, green, blue),
{
    format!("{}", s.color(owo_colors::Rgb(red, green, blue)))
}

} // verus!
