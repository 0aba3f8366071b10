//! Where results are written and how they are announced: output paths for
//! pixelized and generated images, which files a gallery browses, the preview
//! upscale, and the terminal hyperlink to a run folder.

use vstd::prelude::*;
use vstd::string::StringExecFns;
use crate::paths::{
    extension, file_stem, path_join, spec_extension, spec_file_stem, spec_path_join,
    spec_with_file_name, with_file_name,
};
use crate::text::{
    ascii_lower, chars_of, extend_chars, extend_str, spec_ascii_lower, spec_decimal,
    string_from_chars, u64_to_decimal, zero_pad,
};

verus! {

/// The stem used for a pixelized file: the input's file stem, else `out`.
pub open spec fn out_stem(input: Seq<char>) -> Seq<char> {
    match spec_file_stem(input) {
        Some(s) => s,
        None => "out"@,
    }
}

/// Output path of a pixelized input: `<out>/<stem>.png` for several inputs,
/// `<out>` itself for one, else `<stem>.pixl.png` next to the input.
pub open spec fn spec_resolve_out(input: Seq<char>, out: Option<Seq<char>>, multi: bool) -> Seq<
    char,
> {
    match out {
        Some(p) => if multi {
            spec_path_join(p, out_stem(input) + ".png"@)
        } else {
            p
        },
        None => spec_with_file_name(input, out_stem(input) + ".pixl.png"@),
    }
}

/// Output path of a pixelized input (see `spec_resolve_out`).
pub fn resolve_out(input: &str, out: &Option<String>, multi: bool) -> (r: String)
    ensures
        r@ == spec_resolve_out(
            input@,
            match out {
                Some(p) => Some(p@),
                None => None,
            },
            multi,
        ),
{
    let stem = match file_stem(input) {
        Some(s) => s,
        None => String::from_str("out"),
    };
    match out {
        Some(p) => {
            if multi {
                let mut name = chars_of(stem.as_str());
                extend_str(&mut name, ".png");
                let name = string_from_chars(name.as_slice());
                path_join(p.as_str(), name.as_str())
            } else {
                p.clone()
            }
        },
        None => {
            let mut name = chars_of(stem.as_str());
            extend_str(&mut name, ".pixl.png");
            let name = string_from_chars(name.as_slice());
            with_file_name(input, name.as_str())
        },
    }
}

/// `<out_dir>/<slug>_<index, at least 3 digits>.png`.
pub fn image_path(out_dir: &str, slug: &str, index: usize) -> (r: String)
    ensures
        r@ == spec_path_join(
            out_dir@,
            slug@ + "_"@ + zero_pad(spec_decimal(index as nat), 3) + ".png"@,
        ),
{
    let mut name = chars_of(slug);
    extend_str(&mut name, "_");
    let d = u64_to_decimal(index as u64);
    let dv = chars_of(d.as_str());
    let ghost before = name@;
    let mut k: usize = dv.len();
    while k < 3
        invariant
            dv@ == spec_decimal(index as nat),
            dv@.len() <= k <= 3 || (k == dv@.len() && k >= 3),
            name@ == before + Seq::new((k - dv@.len()) as nat, |i: int| '0'),
        decreases 3 - k,
    {
        name.push('0');
        k += 1;
        assert(name@ =~= before + Seq::new((k - dv@.len()) as nat, |i: int| '0'));
    }
    extend_chars(&mut name, dv.as_slice());
    extend_str(&mut name, ".png");
    proof {
        let z = zero_pad(spec_decimal(index as nat), 3);
        if dv@.len() >= 3 {
            assert(name@ =~= before + z + ".png"@);
        } else {
            assert(name@ =~= before + z + ".png"@);
        }
    }
    let name = string_from_chars(name.as_slice());
    path_join(out_dir, name.as_str())
}

/// Image files a gallery browses: extension `png`, `jpg` or `jpeg`, in any
/// ASCII case.
pub open spec fn spec_is_image_path(p: Seq<char>) -> bool {
    match spec_extension(p) {
        Some(e) => {
            let l = e.map_values(|c: char| spec_ascii_lower(c));
            l == "png"@ || l == "jpg"@ || l == "jpeg"@
        },
        None => false,
    }
}

/// Whether `p` names an image the gallery shows.
pub fn is_image_path(p: &str) -> (r: bool)
    ensures
        r == spec_is_image_path(p@),
{
    let e = match extension(p) {
        Some(e) => e,
        None => return false,
    };
    let ev = chars_of(e.as_str());
    let mut l: Vec<char> = Vec::new();
    let mut i: usize = 0;
    while i < ev.len()
        invariant
            0 <= i <= ev@.len(),
            ev@ == e@,
            l@ == ev@.take(i as int).map_values(|c: char| spec_ascii_lower(c)),
        decreases ev.len() - i,
    {
        l.push(ascii_lower(ev[i]));
        i += 1;
        assert(l@ =~= ev@.take(i as int).map_values(|c: char| spec_ascii_lower(c)));
    }
    assert(ev@.take(ev@.len() as int) =~= ev@);
    let png = chars_of("png");
    let jpg = chars_of("jpg");
    let jpeg = chars_of("jpeg");
    crate::text::chars_eq(l.as_slice(), png.as_slice()) || crate::text::chars_eq(
        l.as_slice(),
        jpg.as_slice(),
    ) || crate::text::chars_eq(l.as_slice(), jpeg.as_slice())
}

/// Integer upscale for a saved preview: 512 divided by the width (a zero
/// width counts as 1), at least 1.
pub fn preview_scale(width: u32) -> (s: u32)
    ensures
        s == (if width == 0 {
            512u32
        } else if 512u32 / width >= 1 {
            512u32 / width
        } else {
            1u32
        }),
{
    let w = if width > 1 {
        width
    } else {
        1
    };
    let s = 512 / w;
    if s > 1 {
        s
    } else {
        1
    }
}

/// `s` with every space written as `%20`.
pub open spec fn escape_spaces(s: Seq<char>) -> Seq<char>
    decreases s.len(),
{
    if s.len() == 0 {
        s
    } else {
        (if s[0] == ' ' {
            "%20"@
        } else {
            seq![s[0]]
        }) + escape_spaces(s.drop_first())
    }
}

/// The OSC 8 terminal hyperlink text for the folder `abs`:
/// `open: ESC]8;;file://<abs, spaces as %20>ESC\<abs>ESC]8;;ESC\`.
pub open spec fn spec_open_link(abs: Seq<char>) -> Seq<char> {
    let esc = seq!['\x1b'];
    let st = seq!['\x1b', '\\'];
    "open: "@ + esc + "]8;;"@ + "file://"@ + escape_spaces(abs) + st + abs + esc + "]8;;"@ + st
}

/// Clickable link to the folder `abs` (an absolute path).
pub fn open_link(abs: &str) -> (r: String)
    ensures
        r@ == spec_open_link(abs@),
{
    let cs = chars_of(abs);
    let mut uri: Vec<char> = Vec::new();
    let mut i: usize = 0;
    assert(cs@.skip(0) =~= cs@);
    while i < cs.len()
        invariant
            0 <= i <= cs@.len(),
            cs@ == abs@,
            uri@ + escape_spaces(cs@.skip(i as int)) == escape_spaces(abs@),
        decreases cs.len() - i,
    {
        assert(cs@.skip(i as int).drop_first() =~= cs@.skip(i + 1));
        if cs[i] == ' ' {
            extend_str(&mut uri, "%20");
        } else {
            uri.push(cs[i]);
        }
        i += 1;
        assert(uri@ + escape_spaces(cs@.skip(i as int)) =~= escape_spaces(abs@));
    }
    assert(cs@.skip(i as int) =~= Seq::<char>::empty());
    assert(uri@ =~= escape_spaces(abs@));
    let mut out = chars_of("open: ");
    out.push('\x1b');
    extend_str(&mut out, "]8;;");
    extend_str(&mut out, "file://");
    extend_chars(&mut out, uri.as_slice());
    out.push('\x1b');
    out.push('\\');
    extend_chars(&mut out, cs.as_slice());
    out.push('\x1b');
    extend_str(&mut out, "]8;;");
    out.push('\x1b');
    out.push('\\');
    assert(out@ =~= spec_open_link(abs@));
    string_from_chars(out.as_slice())
}

} // verus!
