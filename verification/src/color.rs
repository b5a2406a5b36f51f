use vstd::prelude::*;
use crate::strutil::{find_char, find_char_vec, subvec, to_chars, string_from_chars};

verus! {

/// One parsed color, in every textual and numeric form the declarations
/// need: hex text, `rgb()`/`rgba()` text, the four rounded channels, and
/// the hue/saturation/lightness/alpha components as decimal text.
pub struct ColorForms {
    pub hex: String,
    pub rgb: String,
    pub rgba8: (u8, u8, u8, u8),
    pub hsla: (String, String, String, String),
}

/// The mathematical model of a parsed color's forms.
pub struct ColorFormsV {
    pub hex: Seq<char>,
    pub rgb: Seq<char>,
    pub rgba8: (u8, u8, u8, u8),
    pub hsla: (Seq<char>, Seq<char>, Seq<char>, Seq<char>),
}

pub open spec fn view_forms(f: ColorForms) -> ColorFormsV {
    ColorFormsV {
        hex: f.hex@,
        rgb: f.rgb@,
        rgba8: f.rgba8,
        hsla: (f.hsla.0@, f.hsla.1@, f.hsla.2@, f.hsla.3@),
    }
}

/// What a color value parses to, in all its forms, if it parses at all.
/// The result is a function of the text alone.
pub uninterp spec fn color_forms_of(s: Seq<char>) -> Option<ColorFormsV>;

/// Relies on csscolorparser::parse and the conversions of its Color type
/// (to_hex_string, to_rgb_string, to_rgba8, to_hsla): an unparseable value
/// yields nothing; a parseable one yields each form, all determined by the
/// text alone.
#[verifier::external_body]
pub(crate) fn parse_color_forms(s: &String) -> (r: Option<ColorForms>)
    ensures
        match r {
            Some(f) => color_forms_of(s@) == Some(view_forms(f)),
            None => color_forms_of(s@) is None,
        },
{
    let c = csscolorparser::parse(s).ok()?;
    let [r8, g8, b8, a8] = c.to_rgba8();
    let (h, sat, l, a) = c.to_hsla();
    Some(ColorForms {
        hex: c.to_hex_string(),
        rgb: c.to_rgb_string(),
        rgba8: (r8, g8, b8, a8),
        hsla: (h.to_string(), sat.to_string(), l.to_string(), a.to_string()),
    })
}

/// The transparent-black fallback used for a value that does not parse.
pub open spec fn fallback_forms() -> ColorFormsV {
    ColorFormsV {
        hex: "#00000000"@,
        rgb: "rgba(0,0,0,0)"@,
        rgba8: (0, 0, 0, 0),
        hsla: ("0"@, "0"@, "0"@, "0"@),
    }
}

/// The forms a setting value resolves to: what it parses to, or the
/// transparent-black fallback; never a failure.
pub open spec fn resolved_forms(s: Seq<char>) -> ColorFormsV {
    match color_forms_of(s) {
        Some(f) => f,
        None => fallback_forms(),
    }
}

/// Parses a color value, falling back to transparent black.
pub fn resolve_color(s: &String) -> (r: ColorForms)
    ensures
        view_forms(r) == resolved_forms(s@),
{
    match parse_color_forms(s) {
        Some(f) => f,
        None => {
            let mut hex = String::new();
            hex.append("#00000000");
            let mut rgb = String::new();
            rgb.append("rgba(0,0,0,0)");
            let mut h = String::new();
            h.append("0");
            let mut sa = String::new();
            sa.append("0");
            let mut l = String::new();
            l.append("0");
            let mut a = String::new();
            a.append("0");
            let f = ColorForms {
                hex,
                rgb,
                rgba8: (0, 0, 0, 0),
                hsla: (h, sa, l, a),
            };
            proof {
                assert(view_forms(f).hex =~= fallback_forms().hex);
                assert(view_forms(f).rgb =~= fallback_forms().rgb);
                assert(view_forms(f).hsla.0 =~= fallback_forms().hsla.0);
                assert(view_forms(f).hsla.1 =~= fallback_forms().hsla.1);
                assert(view_forms(f).hsla.2 =~= fallback_forms().hsla.2);
                assert(view_forms(f).hsla.3 =~= fallback_forms().hsla.3);
            }
            f
        },
    }
}

/// Drops leading zero digits, keeping at least one digit.
pub open spec fn drop_leading_zeros(s: Seq<char>) -> Seq<char>
    decreases s.len(),
{
    if s.len() > 1 && s[0] == '0' {
        drop_leading_zeros(s.drop_first())
    } else {
        s
    }
}

/// A fraction in decimal text, multiplied by one hundred: the decimal point
/// moves two places right, with zeros supplied where digits run out.
pub open spec fn pct_shift(s: Seq<char>) -> Seq<char> {
    let parts = (match find_char(s, '.', 0) {
        Some(i) => (s.subrange(0, i), s.skip(i + 1)),
        None => (s, Seq::<char>::empty()),
    });
    let fpad = (if parts.1.len() >= 2 {
        parts.1
    } else if parts.1.len() == 1 {
        parts.1 + seq!['0']
    } else {
        seq!['0', '0']
    });
    let ip2 = parts.0 + fpad.subrange(0, 2);
    let fp2 = fpad.skip(2);
    if fp2.len() == 0 {
        drop_leading_zeros(ip2)
    } else {
        drop_leading_zeros(ip2) + seq!['.'] + fp2
    }
}

fn drop_zeros_exec(v: &Vec<char>) -> (r: Vec<char>)
    ensures
        r@ == drop_leading_zeros(v@),
{
    let n: usize = v.len();
    if n == 0 {
        let r: Vec<char> = Vec::new();
        proof {
            assert(r@ =~= drop_leading_zeros(v@));
        }
        return r;
    }
    let mut i: usize = 0;
    proof {
        assert(v@.skip(0) =~= v@);
    }
    while i < n - 1 && v[i] == '0'
        invariant
            n == v@.len(),
            1 <= n,
            i < n,
            drop_leading_zeros(v@) == drop_leading_zeros(v@.skip(i as int)),
        decreases v.len() - i,
    {
        i += 1;
        proof {
            assert(v@.skip(i - 1).drop_first() =~= v@.skip(i as int));
            assert(v@.skip(i - 1)[0] == v@[i - 1]);
            assert(v@.skip(i - 1).len() > 1);
        }
    }
    let r = subvec(v, i, v.len());
    proof {
        assert(v@.skip(i as int) =~= v@.subrange(i as int, v@.len() as int));
        if v@.skip(i as int).len() > 1 {
            assert(v@.skip(i as int)[0] == v@[i as int]);
        }
        assert(drop_leading_zeros(v@.skip(i as int)) == v@.skip(i as int));
    }
    r
}

/// Multiplies a decimal fraction's text by one hundred.
pub fn pct_string(s: &String) -> (r: String)
    ensures
        r@ == pct_shift(s@),
{
    let v = to_chars(s.as_str());
    let mut ip: Vec<char>;
    let mut fp: Vec<char>;
    match find_char_vec(&v, '.', 0) {
        Some(i) => {
            proof {
                crate::callout::lemma_find_char_in_range(v@, '.', 0, i as int);
                assert(i + 1 <= v@.len());
            }
            ip = subvec(&v, 0, i);
            fp = subvec(&v, i + 1, v.len());
            proof {
                assert(v@.skip(i + 1) =~= v@.subrange(i + 1, v@.len() as int));
            }
        },
        None => {
            ip = subvec(&v, 0, v.len());
            fp = Vec::new();
            proof {
                assert(v@.subrange(0, v@.len() as int) =~= v@);
            }
        },
    }
    let ghost fraw = fp@;
    if fp.len() == 1 {
        fp.push('0');
    } else if fp.len() == 0 {
        fp.push('0');
        fp.push('0');
    }
    let ghost fpad = fp@;
    proof {
        if fraw.len() >= 2 {
            assert(fpad == fraw);
        } else if fraw.len() == 1 {
            assert(fpad =~= fraw + seq!['0']);
        } else {
            assert(fpad =~= seq!['0', '0']);
        }
    }
    let mut ip2 = ip;
    ip2.push(fp[0]);
    ip2.push(fp[1]);
    proof {
        assert(ip2@ =~= ip@ + fpad.subrange(0, 2));
    }
    let lead = drop_zeros_exec(&ip2);
    let mut out = lead;
    if fp.len() > 2 {
        out.push('.');
        proof {
            assert(fpad.subrange(2, 2) =~= Seq::<char>::empty());
            assert(out@ =~= drop_leading_zeros(ip@ + fpad.subrange(0, 2)) + seq!['.']
                + fpad.subrange(2, 2));
        }
        let mut k: usize = 2;
        while k < fp.len()
            invariant
                2 <= k <= fp@.len(),
                fp@ == fpad,
                out@ == drop_leading_zeros(ip@ + fpad.subrange(0, 2)) + seq!['.'] + fpad.subrange(
                    2,
                    k as int,
                ),
            decreases fp@.len() - k,
        {
            out.push(fp[k]);
            k += 1;
            proof {
                assert(fpad.subrange(2, k as int) =~= fpad.subrange(2, k - 1).push(
                    fpad[k - 1],
                ));
                assert(out@ =~= drop_leading_zeros(ip@ + fpad.subrange(0, 2)) + seq!['.']
                    + fpad.subrange(2, k as int));
            }
        }
        proof {
            assert(fpad.skip(2) =~= fpad.subrange(2, fpad.len() as int));
        }
    } else {
        proof {
            assert(fpad.skip(2) =~= Seq::<char>::empty());
        }
    }
    proof {
        assert(out@ =~= pct_shift(s@));
    }
    string_from_chars(&out)
}

} // verus!
