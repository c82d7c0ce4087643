use std::collections::HashMap;

use pianorium::video_builder::{
    header_options, FinishAction, FinishEvent, StepAction, StepEvent, TimeBase, VideoBuilder,
    VideoOptions,
};

fn options(num: i32, den: i32) -> VideoOptions {
    VideoOptions {
        output_path: "out.mp4".to_string(),
        metadata: HashMap::new(),
        video_time_base: TimeBase { numerator: num, denominator: den },
        video_codec: "libx264".to_string(),
        video_codec_params: HashMap::new(),
        pixel_format_in: "rgb24".to_string(),
        pixel_format_out: "yuv420p".to_string(),
        resolution_in: (2, 1),
        resolution_out: (2, 1),
    }
}

fn send_of(a: StepAction) -> (Vec<u8>, i64) {
    match a {
        StepAction::Send { frame, pts } => (frame, pts),
        _ => panic!("expected a frame to send"),
    }
}

#[test]
fn frames_go_out_in_order_with_consecutive_timestamps() {
    let mut vb = VideoBuilder::new(options(1, 30), 6);
    vb.push_video_data(&[1, 1, 1, 1, 1, 1]).unwrap();
    vb.push_video_data(&[2, 2, 2, 2, 2, 2]).unwrap();
    let (f, pts) = send_of(vb.step_encoding(StepEvent::Start));
    assert_eq!((f, pts), (vec![1; 6], 0));
    assert!(matches!(vb.step_encoding(StepEvent::Sent(Ok(()))), StepAction::Receive));
    let (f, pts) = send_of(vb.step_encoding(StepEvent::Muxed(Ok(true))));
    assert_eq!((f, pts), (vec![2; 6], 1));
    assert!(matches!(vb.step_encoding(StepEvent::Sent(Ok(()))), StepAction::Receive));
    assert!(matches!(vb.step_encoding(StepEvent::Muxed(Ok(true))), StepAction::Done(Ok(()))));
    assert_eq!(vb.v_pts, 2);
    assert_eq!(vb.v_pts_muxed, 2);
    assert!(vb.v_frame_buf.is_empty());
}

#[test]
fn step_stops_when_no_packet_or_on_error() {
    let mut vb = VideoBuilder::new(options(1, 30), 1);
    vb.push_video_data(&[7]).unwrap();
    vb.push_video_data(&[8]).unwrap();
    let _ = send_of(vb.step_encoding(StepEvent::Start));
    let _ = vb.step_encoding(StepEvent::Sent(Ok(())));
    assert!(matches!(vb.step_encoding(StepEvent::Muxed(Ok(false))), StepAction::Done(Ok(()))));
    assert_eq!(vb.v_frame_buf.len(), 1);
    let _ = send_of(vb.step_encoding(StepEvent::Start));
    match vb.step_encoding(StepEvent::Sent(Err("boom".to_string()))) {
        StepAction::Done(Err(e)) => assert_eq!(e, "boom"),
        _ => panic!("expected the error"),
    }
    // the frame was taken, its timestamp not used
    assert_eq!(vb.v_pts, 1);
    assert!(vb.v_frame_buf.is_empty());
    match vb.step_encoding(StepEvent::Muxed(Err("mux".to_string()))) {
        StepAction::Done(Err(e)) => assert_eq!(e, "mux"),
        _ => panic!("expected the error"),
    }
}

#[test]
fn empty_queue_step_is_done_at_once() {
    let mut vb = VideoBuilder::new(options(1, 30), 3);
    assert!(matches!(vb.step_encoding(StepEvent::Start), StepAction::Done(Ok(()))));
}

#[test]
fn finishing_sends_eof_drains_and_writes_trailer() {
    let mut vb = VideoBuilder::new(options(1, 30), 3);
    assert!(matches!(vb.finish_encoding(FinishEvent::Start), FinishAction::SendEof));
    assert!(matches!(vb.finish_encoding(FinishEvent::EofSent(Ok(()))), FinishAction::Receive));
    assert!(matches!(vb.finish_encoding(FinishEvent::Muxed(Ok(true))), FinishAction::Receive));
    assert!(matches!(
        vb.finish_encoding(FinishEvent::Muxed(Ok(false))),
        FinishAction::WriteTrailer
    ));
    assert!(matches!(
        vb.finish_encoding(FinishEvent::TrailerWritten(Ok(()))),
        FinishAction::Done(Ok(()))
    ));
    assert_eq!(vb.v_pts_muxed, 1);
    match vb.finish_encoding(FinishEvent::EofSent(Err("eof".to_string()))) {
        FinishAction::Done(Err(e)) => assert_eq!(e, "eof"),
        _ => panic!("expected the error"),
    }
}

#[test]
fn size_is_what_the_output_reported() {
    let mut vb = VideoBuilder::new(options(1, 30), 1);
    assert_eq!(vb.encoded_video_size(), 0);
    vb.record_bytes_written(4096);
    assert_eq!(vb.encoded_video_size(), 4096);
}

#[test]
fn mp4_header_gets_faststart() {
    let o = header_options("mp4");
    assert_eq!(o, vec![("movflags".to_string(), "faststart".to_string())]);
    assert!(header_options("matroska").is_empty());
    assert!(header_options("mp").is_empty());
}
