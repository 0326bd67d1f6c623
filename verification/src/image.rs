//! Arguments of the image tools that make the sizes of each photo.
use crate::config::PhotoConfig;
use crate::models::photo::Photo;
use crate::models::size::{
    center_square_spec, photo_file_name, photo_file_name_exec, SUFFIX_LARGE, SUFFIX_MEDIUM, SUFFIX_SMALL,
    SUFFIX_THUMB,
};
use crate::order::strings_view;
use crate::text::{decimal, push_decimal, push_str, string_of};
use vstd::prelude::*;

verus! {

/// Append the argument `lit`.
fn push_arg(args: &mut Vec<String>, lit: &str)
    ensures
        strings_view(final(args)@) == strings_view(old(args)@).push(lit@),
{
    let ghost before = args@;
    args.push(String::from_str(lit));
    assert(strings_view(args@) =~= strings_view(before).push(lit@));
}

/// Append the decimal digits of `n` as an argument, followed by `tail`.
fn push_number(args: &mut Vec<String>, n: u16, tail: &str)
    ensures
        strings_view(final(args)@) == strings_view(old(args)@).push(decimal(n as nat) + tail@),
{
    let mut v: Vec<char> = Vec::new();
    push_decimal(&mut v, n as u64);
    push_str(&mut v, tail);
    let ghost before = args@;
    let a = string_of(&v);
    args.push(a);
    assert(strings_view(args@) =~= strings_view(before).push(decimal(n as nat) + tail@));
}

/// Resize arguments of `cwebp` for a size with long edge `max`: none when the
/// source already has that size; a crop of the centered square resized to
/// `max` for a square; otherwise `max` along the long edge, the other edge
/// left to keep the aspect ratio.
pub open spec fn resize_args(photo: Photo, config: PhotoConfig, max: u16, make_square: bool) -> Seq<Seq<char>> {
    if config.source_size == max {
        Seq::empty()
    } else if make_square {
        let (x, y, edge) = center_square_spec(photo.size.original);
        seq![
            "-crop"@,
            decimal(x as nat),
            decimal(y as nat),
            decimal(edge as nat),
            decimal(edge as nat),
            "-resize"@,
            decimal(max as nat),
            "0"@,
        ]
    } else if photo.size.original.width > photo.size.original.height {
        seq!["-resize"@, decimal(max as nat), "0"@]
    } else {
        seq!["-resize"@, "0"@, decimal(max as nat)]
    }
}

/// Arguments of `cwebp` that make one size of a photo: multi-threaded, no
/// alpha channel, quiet, near-lossless, best method, color profile kept and
/// other metadata dropped, resized, written to the size's file.
pub open spec fn cwebp_spec(
    photo: Photo,
    config: PhotoConfig,
    max: u16,
    suffix: Seq<char>,
    make_square: bool,
) -> Seq<Seq<char>> {
    seq!["-mt"@, "-noalpha"@, "-quiet"@, "-near_lossless"@, "0"@, "-m"@, "6"@, "-metadata"@, "icc"@]
        + resize_args(photo, config, max, make_square) + seq![
        photo.file.name@,
        "-o"@,
        photo_file_name(photo.index, suffix, config.output_ext@),
    ]
}

/// Arguments of `cwebp` that make the size of a photo with long edge `max`
/// and file-name suffix `suffix`; `make_square` crops the centered square.
pub fn cwebp_args(photo: &Photo, config: &PhotoConfig, max: u16, suffix: &str, make_square: bool) -> (args: Vec<String>)
    ensures
        strings_view(args@) == cwebp_spec(*photo, *config, max, suffix@, make_square),
{
    let mut args: Vec<String> = Vec::new();
    push_arg(&mut args, "-mt");
    push_arg(&mut args, "-noalpha");
    push_arg(&mut args, "-quiet");
    push_arg(&mut args, "-near_lossless");
    push_arg(&mut args, "0");
    push_arg(&mut args, "-m");
    push_arg(&mut args, "6");
    push_arg(&mut args, "-metadata");
    push_arg(&mut args, "icc");
    let ghost head = strings_view(args@);
    if config.source_size == max {
    } else if make_square {
        let (x, y, edge) = photo.size.original.center_square();
        push_arg(&mut args, "-crop");
        push_number(&mut args, x, "");
        push_number(&mut args, y, "");
        push_number(&mut args, edge, "");
        push_number(&mut args, edge, "");
        push_arg(&mut args, "-resize");
        push_number(&mut args, max, "");
        push_arg(&mut args, "0");
    } else if photo.size.is_landscape() {
        push_arg(&mut args, "-resize");
        push_number(&mut args, max, "");
        push_arg(&mut args, "0");
    } else {
        push_arg(&mut args, "-resize");
        push_arg(&mut args, "0");
        push_number(&mut args, max, "");
    }
    proof {
        reveal_strlit("");
        assert forall|n: nat| #[trigger] (decimal(n) + ""@) == decimal(n) by {
            assert(decimal(n) + ""@ =~= decimal(n));
        }
    }
    let ghost middle = strings_view(args@);
    assert(middle =~= head + resize_args(*photo, *config, max, make_square));
    let name = photo.file.name.clone();
    let ghost before = args@;
    args.push(name);
    assert(strings_view(args@) =~= strings_view(before).push(photo.file.name@));
    push_arg(&mut args, "-o");
    let file = photo_file_name_exec(photo.index, suffix, config.output_ext.as_str());
    let ghost before = args@;
    args.push(file);
    assert(strings_view(args@) =~= strings_view(before).push(file@));
    assert(strings_view(args@) =~= cwebp_spec(*photo, *config, max, suffix@, make_square));
    args
}

/// Arguments of `cwebp` for each size of a photo: large, medium, small, and
/// the square thumbnail.
pub fn cwebp_commands(photo: &Photo, config: &PhotoConfig) -> (commands: Vec<Vec<String>>)
    ensures
        commands@.len() == 4,
        strings_view(commands@[0]@) == cwebp_spec(*photo, *config, config.size.large, SUFFIX_LARGE@, false),
        strings_view(commands@[1]@) == cwebp_spec(*photo, *config, config.size.medium, SUFFIX_MEDIUM@, false),
        strings_view(commands@[2]@) == cwebp_spec(*photo, *config, config.size.small, SUFFIX_SMALL@, false),
        strings_view(commands@[3]@) == cwebp_spec(*photo, *config, config.size.thumb, SUFFIX_THUMB@, true),
{
    let mut commands: Vec<Vec<String>> = Vec::new();
    commands.push(cwebp_args(photo, config, config.size.large, SUFFIX_LARGE, false));
    commands.push(cwebp_args(photo, config, config.size.medium, SUFFIX_MEDIUM, false));
    commands.push(cwebp_args(photo, config, config.size.small, SUFFIX_SMALL, false));
    commands.push(cwebp_args(photo, config, config.size.thumb, SUFFIX_THUMB, true));
    commands
}

/// ImageMagick arguments that write one resized copy: `( +clone -resize Nx
/// -write FILE +delete )`.
pub open spec fn magick_size(photo: Photo, config: PhotoConfig, size: u16, suffix: Seq<char>) -> Seq<Seq<char>> {
    seq![
        "("@,
        "+clone"@,
        "-resize"@,
        decimal(size as nat) + "x"@,
        "-write"@,
        photo_file_name(photo.index, suffix, config.output_ext@),
        "+delete"@,
        ")"@,
    ]
}

/// ImageMagick arguments that make every size of a photo from its file: the
/// large, medium and small copies, then the thumbnail filled to a square and
/// cut to it around the center.
pub open spec fn magick_spec(photo: Photo, config: PhotoConfig) -> Seq<Seq<char>> {
    let t = config.size.thumb as nat;
    seq!["convert"@, photo.file.name@, "-quiet"@] + magick_size(photo, config, config.size.large, SUFFIX_LARGE@)
        + magick_size(photo, config, config.size.medium, SUFFIX_MEDIUM@) + magick_size(
        photo,
        config,
        config.size.small,
        SUFFIX_SMALL@,
    ) + seq![
        "-resize"@,
        decimal(t) + "x"@ + decimal(t) + "^"@,
        "-gravity"@,
        "center"@,
        "-extent"@,
        decimal(t) + "x"@ + decimal(t),
        photo_file_name(photo.index, SUFFIX_THUMB@, config.output_ext@),
    ]
}

fn push_magick_size(args: &mut Vec<String>, photo: &Photo, config: &PhotoConfig, size: u16, suffix: &str)
    ensures
        strings_view(final(args)@) == strings_view(old(args)@) + magick_size(*photo, *config, size, suffix@),
{
    let ghost head = strings_view(args@);
    push_arg(args, "(");
    push_arg(args, "+clone");
    push_arg(args, "-resize");
    push_number(args, size, "x");
    push_arg(args, "-write");
    let file = photo_file_name_exec(photo.index, suffix, config.output_ext.as_str());
    let ghost before = args@;
    args.push(file);
    assert(strings_view(args@) =~= strings_view(before).push(file@));
    push_arg(args, "+delete");
    push_arg(args, ")");
    assert(strings_view(args@) =~= head + magick_size(*photo, *config, size, suffix@));
}

/// Arguments of ImageMagick's `magick` that make all sizes of a photo.
pub fn magick_args(photo: &Photo, config: &PhotoConfig) -> (args: Vec<String>)
    ensures
        strings_view(args@) == magick_spec(*photo, *config),
{
    let mut args: Vec<String> = Vec::new();
    push_arg(&mut args, "convert");
    let name = photo.file.name.clone();
    let ghost before = args@;
    args.push(name);
    assert(strings_view(args@) =~= strings_view(before).push(photo.file.name@));
    push_arg(&mut args, "-quiet");
    push_magick_size(&mut args, photo, config, config.size.large, SUFFIX_LARGE);
    push_magick_size(&mut args, photo, config, config.size.medium, SUFFIX_MEDIUM);
    push_magick_size(&mut args, photo, config, config.size.small, SUFFIX_SMALL);
    let ghost head = strings_view(args@);
    let t = config.size.thumb;
    push_arg(&mut args, "-resize");
    let mut v: Vec<char> = Vec::new();
    push_decimal(&mut v, t as u64);
    push_str(&mut v, "x");
    push_decimal(&mut v, t as u64);
    push_str(&mut v, "^");
    let fill = string_of(&v);
    let ghost before = args@;
    args.push(fill);
    assert(strings_view(args@) =~= strings_view(before).push(fill@));
    push_arg(&mut args, "-gravity");
    push_arg(&mut args, "center");
    push_arg(&mut args, "-extent");
    let mut w: Vec<char> = Vec::new();
    push_decimal(&mut w, t as u64);
    push_str(&mut w, "x");
    push_decimal(&mut w, t as u64);
    let extent = string_of(&w);
    let ghost before = args@;
    args.push(extent);
    assert(strings_view(args@) =~= strings_view(before).push(extent@));
    let file = photo_file_name_exec(photo.index, SUFFIX_THUMB, config.output_ext.as_str());
    let ghost before = args@;
    args.push(file);
    assert(strings_view(args@) =~= strings_view(before).push(file@));
    assert(strings_view(args@) =~= magick_spec(*photo, *config));
    args
}

} // verus!
