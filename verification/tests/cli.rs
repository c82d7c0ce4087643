use pianorium::cli;
use pianorium::ui;

fn args(v: &[&str]) -> Vec<String> {
    v.iter().map(|s| s.to_string()).collect()
}

#[test]
fn seven_arguments_build_parameters() {
    let p = cli::Parameters::build(&args(&[
        "1920", "1080", "60", "4", "song.mid", "out.mp4", "true",
    ]))
    .unwrap();
    assert_eq!((p.width, p.height, p.samples), (1920, 1080, 4));
    assert_eq!(p.framerate, "60");
    assert_eq!(p.midi_file, "song.mid");
    assert_eq!(p.output_file, "out.mp4");
    assert!(p.clear_dir);
}

#[test]
fn wrong_argument_count_is_refused() {
    let r = cli::Parameters::build(&args(&["1920", "1080"]));
    assert_eq!(r.err(), Some("The number of arguments is incorrect"));
    let r = ui::cli::Parameters::build(&args(&["1", "2", "3", "4", "5", "6", "7"]));
    assert_eq!(r.err(), Some("The number of arguments is incorrect"));
}

#[test]
fn eight_arguments_build_parameters() {
    let a = args(&["800", "600", "29.97", "+8", "in.mid", "out.mp4", "out.png", "false"]);
    let p = ui::cli::Parameters::build_with_cores(&a, 6).unwrap();
    assert_eq!((p.width, p.height, p.samples, p.cores), (800, 600, 8, 6));
    assert_eq!(p.framerate, "29.97");
    assert_eq!(p.index_file, "index.txt");
    assert_eq!((p.mp4_file.as_str(), p.png_file.as_str()), ("out.mp4", "out.png"));
    assert!(!p.clear_dir);
    let q = ui::cli::Parameters::build(&a).unwrap();
    assert!(q.cores >= 1);
    assert_eq!(q.width, 800);
}
