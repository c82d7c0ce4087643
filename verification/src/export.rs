//! The names and command lines with which rendered frames are handed to `ffmpeg`.
use vstd::prelude::*;

use crate::text::{decimal, push_decimal, push_zero_padded, views, zero_padded};

verus! {

fn push_str(v: &mut Vec<String>, s: &str)
    ensures
        views(final(v)@) == views(old(v)@).push(s@),
{
    let ghost before = v@;
    v.push(String::from_str(s));
    proof {
        assert(views(v@) =~= views(before).push(s@));
    }
}

/// The file of frame `frame` in directory `dir`: `{dir}/{frame:010}.mp4`.
pub open spec fn frame_file_name_spec(dir: Seq<char>, frame: nat) -> Seq<char> {
    dir + "/"@ + zero_padded(frame, 10) + ".mp4"@
}

/// Names the video file of one frame: the frame number, zero-padded to ten digits, in
/// `dir`.
pub fn frame_file_name(dir: &str, frame: usize) -> (r: String)
    ensures
        r@ == frame_file_name_spec(dir@, frame as nat),
{
    let mut s = String::from_str(dir);
    s.append("/");
    push_zero_padded(&mut s, frame as u64, 10);
    s.append(".mp4");
    s
}

/// The line of the concat list that names `file`: `file {file}`.
pub fn index_line(file: &str) -> (r: String)
    ensures
        r@ == "file "@ + file@,
{
    let mut s = String::from_str("file ");
    s.append(file);
    s
}

/// The frame size argument: `{width}x{height}`.
pub open spec fn size_arg_spec(width: nat, height: nat) -> Seq<char> {
    decimal(width) + "x"@ + decimal(height)
}

/// Writes a frame size as `ffmpeg` takes it.
pub fn size_arg(width: usize, height: usize) -> (r: String)
    ensures
        r@ == size_arg_spec(width as nat, height as nat),
{
    let mut s = String::new();
    push_decimal(&mut s, width as u64);
    s.append("x");
    push_decimal(&mut s, height as u64);
    proof {
        assert(s@ =~= size_arg_spec(width as nat, height as nat));
    }
    s
}

/// The value of `FFREPORT` that sends `ffmpeg`'s report at level 56 to `log`.
pub fn report_setting(log: &str) -> (r: String)
    ensures
        r@ == "file="@ + log@ + ":level=56"@,
{
    let mut s = String::from_str("file=");
    s.append(log);
    s.append(":level=56");
    s
}

/// The arguments that encode one raw BGRA frame read from standard input into `filename`
/// with libx264 (quality 23), flipped vertically, at `framerate` frames per second.
pub open spec fn mp4_args_spec(
    framerate: Seq<char>,
    width: nat,
    height: nat,
    filename: Seq<char>,
) -> Seq<Seq<char>> {
    seq![
        "-loglevel"@,
        "0"@,
        "-f"@,
        "rawvideo"@,
        "-r"@,
        framerate,
        "-pix_fmt"@,
        "bgra"@,
        "-s"@,
        size_arg_spec(width, height),
        "-i"@,
        "-"@,
        "-vcodec"@,
        "libx264"@,
        "-crf"@,
        "23"@,
        "-vf"@,
        "vflip"@,
        filename,
    ]
}

/// Builds the arguments of the `ffmpeg` call that encodes one frame as video.
pub fn export_mp4_args(framerate: &str, width: usize, height: usize, filename: &str) -> (r: Vec<
    String,
>)
    ensures
        views(r@) == mp4_args_spec(framerate@, width as nat, height as nat, filename@),
{
    let mut v: Vec<String> = Vec::new();
    push_str(&mut v, "-loglevel");
    push_str(&mut v, "0");
    push_str(&mut v, "-f");
    push_str(&mut v, "rawvideo");
    push_str(&mut v, "-r");
    push_str(&mut v, framerate);
    push_str(&mut v, "-pix_fmt");
    push_str(&mut v, "bgra");
    push_str(&mut v, "-s");
    let size = size_arg(width, height);
    push_str(&mut v, size.as_str());
    push_str(&mut v, "-i");
    push_str(&mut v, "-");
    push_str(&mut v, "-vcodec");
    push_str(&mut v, "libx264");
    push_str(&mut v, "-crf");
    push_str(&mut v, "23");
    push_str(&mut v, "-vf");
    push_str(&mut v, "vflip");
    push_str(&mut v, filename);
    proof {
        assert(views(v@) =~= mp4_args_spec(framerate@, width as nat, height as nat, filename@));
    }
    v
}

/// The arguments that turn one raw BGRA frame read from standard input into the image
/// `filename`, flipped vertically, overwriting it.
pub open spec fn png_args_spec(width: nat, height: nat, filename: Seq<char>) -> Seq<Seq<char>> {
    seq![
        "-loglevel"@,
        "0"@,
        "-f"@,
        "rawvideo"@,
        "-pix_fmt"@,
        "bgra"@,
        "-s"@,
        size_arg_spec(width, height),
        "-i"@,
        "-"@,
        "-frames:v"@,
        "1"@,
        "-vf"@,
        "vflip"@,
        "-y"@,
        filename,
    ]
}

/// Builds the arguments of the `ffmpeg` call that saves one frame as an image.
pub fn export_png_args(width: usize, height: usize, filename: &str) -> (r: Vec<String>)
    ensures
        views(r@) == png_args_spec(width as nat, height as nat, filename@),
{
    let mut v: Vec<String> = Vec::new();
    push_str(&mut v, "-loglevel");
    push_str(&mut v, "0");
    push_str(&mut v, "-f");
    push_str(&mut v, "rawvideo");
    push_str(&mut v, "-pix_fmt");
    push_str(&mut v, "bgra");
    push_str(&mut v, "-s");
    let size = size_arg(width, height);
    push_str(&mut v, size.as_str());
    push_str(&mut v, "-i");
    push_str(&mut v, "-");
    push_str(&mut v, "-frames:v");
    push_str(&mut v, "1");
    push_str(&mut v, "-vf");
    push_str(&mut v, "vflip");
    push_str(&mut v, "-y");
    push_str(&mut v, filename);
    proof {
        assert(views(v@) =~= png_args_spec(width as nat, height as nat, filename@));
    }
    v
}

/// The arguments that join the videos listed in `index` into `output` without
/// re-encoding, overwriting it; with `faststart`, the output's index goes first.
pub open spec fn concat_args_spec(index: Seq<char>, output: Seq<char>, faststart: bool) -> Seq<
    Seq<char>,
> {
    let head = seq!["-loglevel"@, "0"@, "-f"@, "concat"@, "-i"@, index, "-c"@, "copy"@];
    let mid = if faststart {
        seq!["-movflags"@, "faststart"@]
    } else {
        Seq::empty()
    };
    head + mid + seq!["-y"@, output]
}

/// Builds the arguments of the `ffmpeg` call that concatenates the frame videos.
pub fn concat_args(index: &str, output: &str, faststart: bool) -> (r: Vec<String>)
    ensures
        views(r@) == concat_args_spec(index@, output@, faststart),
{
    let mut v: Vec<String> = Vec::new();
    push_str(&mut v, "-loglevel");
    push_str(&mut v, "0");
    push_str(&mut v, "-f");
    push_str(&mut v, "concat");
    push_str(&mut v, "-i");
    push_str(&mut v, index);
    push_str(&mut v, "-c");
    push_str(&mut v, "copy");
    if faststart {
        push_str(&mut v, "-movflags");
        push_str(&mut v, "faststart");
    }
    push_str(&mut v, "-y");
    push_str(&mut v, output);
    proof {
        assert(views(v@) =~= concat_args_spec(index@, output@, faststart));
    }
    v
}

} // verus!
