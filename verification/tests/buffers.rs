use pianorium::buffers::{frame_bytes, generate_raw_rgb_frame, whitespace_bytes};
use pianorium::export::{
    concat_args, export_mp4_args, export_png_args, frame_file_name, index_line,
    report_setting, size_arg,
};

#[test]
fn test_frame_is_half_black_half_white() {
    let f = generate_raw_rgb_frame().unwrap();
    assert_eq!(f.len(), 1280 * 720 * 3);
    assert_eq!(f[0], 0);
    assert_eq!(f[639 * 3 + 2], 0);
    assert_eq!(f[640 * 3], 255);
    assert_eq!(f[1279 * 3 + 2], 255);
    assert_eq!(f[1280 * 3], 0);
    let whites = f.iter().filter(|&&b| b == 255).count();
    assert_eq!(whites, f.len() / 2);
}

#[test]
fn whitespace_buffer() {
    let b = whitespace_bytes(5);
    assert_eq!(b, b"     ".to_vec());
    assert!(b.capacity() >= 6);
    assert!(whitespace_bytes(0).is_empty());
}

#[test]
fn frame_sizes() {
    assert_eq!(frame_bytes(800, 600, 4), 1_920_000);
    assert_eq!(frame_bytes(1920, 1080, 3), 6_220_800);
}

#[test]
fn frame_names() {
    assert_eq!(frame_file_name("temp", 5), "temp/0000000005.mp4");
    assert_eq!(frame_file_name("pianorium_temp", 1234567), "pianorium_temp/0001234567.mp4");
    assert_eq!(index_line("temp/0000000005.mp4"), "file temp/0000000005.mp4");
    assert_eq!(size_arg(1920, 1080), "1920x1080");
    assert_eq!(report_setting("ff.log"), "file=ff.log:level=56");
}

#[test]
fn ffmpeg_command_lines() {
    assert_eq!(
        export_mp4_args("60", 800, 600, "temp/0000000001.mp4"),
        vec![
            "-loglevel", "0", "-f", "rawvideo", "-r", "60", "-pix_fmt", "bgra", "-s", "800x600",
            "-i", "-", "-vcodec", "libx264", "-crf", "23", "-vf", "vflip", "temp/0000000001.mp4",
        ]
    );
    assert_eq!(
        export_png_args(800, 600, "out.png"),
        vec![
            "-loglevel", "0", "-f", "rawvideo", "-pix_fmt", "bgra", "-s", "800x600", "-i", "-",
            "-frames:v", "1", "-vf", "vflip", "-y", "out.png",
        ]
    );
    assert_eq!(
        concat_args("index.txt", "out.mp4", false),
        vec!["-loglevel", "0", "-f", "concat", "-i", "index.txt", "-c", "copy", "-y", "out.mp4"]
    );
    assert_eq!(
        concat_args("pianorium_index.txt", "o.mp4", true),
        vec![
            "-loglevel", "0", "-f", "concat", "-i", "pianorium_index.txt", "-c", "copy",
            "-movflags", "faststart", "-y", "o.mp4",
        ]
    );
}
