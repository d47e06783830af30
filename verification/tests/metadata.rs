use gif_editor_core::metadata::{
    check_if_optimized, parse_delays, parse_frame_count, parse_logical_screen,
};

const REPORT: &str = "* example.gif 3 images\n  logical screen 100x80\n  global color table [256]\n  background 0\n  loop forever\n  + image #0 100x80\n    disposal asis delay 0.05s\n  + image #1 100x80 transparent 255\n    disposal asis delay 0.10s\n  + image #2 100x80\n    delay 1.50s\n";

#[test]
fn frame_count_is_read_from_the_images_line() {
    assert_eq!(parse_frame_count(REPORT.as_bytes()), 3);
    assert_eq!(parse_frame_count(b"* a.gif 162 images"), 162);
    assert_eq!(parse_frame_count(b"* a.gif 1 image\n"), 0);
}

#[test]
fn frame_count_defaults_to_zero() {
    assert_eq!(parse_frame_count(b""), 0);
    assert_eq!(parse_frame_count(b"\n\n\n"), 0);
    assert_eq!(parse_frame_count(b"no count here"), 0);
    assert_eq!(parse_frame_count(b"images without a number"), 0);
    assert_eq!(parse_frame_count(b"99999999999999999999999999 images"), 0);
}

#[test]
fn frame_count_takes_the_first_number_of_the_last_line() {
    assert_eq!(parse_frame_count(b"* 2024 5 images"), 2024);
    assert_eq!(parse_frame_count(b"* a 5 images\n* b 7 images\n"), 7);
    assert_eq!(parse_frame_count(b"* a 5 images\nimages none\n"), 5);
    assert_eq!(parse_frame_count(b"* a +12 images\r\n"), 12);
    assert_eq!(parse_frame_count(b"7\nimages"), 0);
}

#[test]
fn delays_in_hundredths() {
    assert_eq!(parse_delays(REPORT.as_bytes(), 2), vec![5, 10, 150]);
}

#[test]
fn delays_in_thousandths() {
    assert_eq!(parse_delays(REPORT.as_bytes(), 3), vec![50, 100, 1500]);
}

#[test]
fn delay_forms() {
    assert_eq!(parse_delays(b"delay 2s", 2), vec![200]);
    assert_eq!(parse_delays(b"delay .5s", 2), vec![50]);
    assert_eq!(parse_delays(b"delay 1.s", 2), vec![100]);
    assert_eq!(parse_delays(b"delay0.07s", 2), vec![7]);
    assert_eq!(parse_delays(b"  delay \t 0.25s and more", 2), vec![25]);
    assert_eq!(parse_delays(b"delay 0.1s delay 0.2s", 2), vec![10]);
    assert_eq!(parse_delays(b"delay 0.05s\r\ndelay 0.06s\r\n", 2), vec![5, 6]);
    assert_eq!(parse_delays(b"delay 3s", 0), vec![3]);
}

#[test]
fn delays_are_rounded_to_the_nearest_unit() {
    assert_eq!(parse_delays(b"delay 0.054s", 2), vec![5]);
    assert_eq!(parse_delays(b"delay 0.055s", 2), vec![6]);
    assert_eq!(parse_delays(b"delay 0.0549s", 2), vec![5]);
    assert_eq!(parse_delays(b"delay 0.9999s", 3), vec![1000]);
    assert_eq!(parse_delays(b"delay 2.5s", 0), vec![3]);
    assert_eq!(parse_delays(b"delay 2.49s", 0), vec![2]);
}

#[test]
fn lines_without_a_delay_are_passed_over() {
    assert_eq!(parse_delays(b"", 2), Vec::<u64>::new());
    assert_eq!(parse_delays(b"delay 5", 2), Vec::<u64>::new());
    assert_eq!(parse_delays(b"delay abcs", 2), Vec::<u64>::new());
    assert_eq!(parse_delays(b"delay 0.05 s", 2), Vec::<u64>::new());
    assert_eq!(parse_delays(b"delay .s", 2), Vec::<u64>::new());
    assert_eq!(parse_delays(b"delay s", 2), Vec::<u64>::new());
    assert_eq!(parse_delays(b"delay 1.2.3s", 2), Vec::<u64>::new());
    assert_eq!(parse_delays(b"delay -1s", 2), Vec::<u64>::new());
    assert_eq!(parse_delays(b"del ay 1s", 2), Vec::<u64>::new());
    assert_eq!(parse_delays(b"x\ndelay 1s\ny\n", 2), vec![100]);
}

#[test]
fn huge_delay_saturates() {
    assert_eq!(parse_delays(b"delay 99999999999999999999999s", 2), vec![u64::MAX]);
    assert_eq!(parse_delays(b"delay 184467440737095516.15s", 2), vec![u64::MAX]);
    assert_eq!(parse_delays(b"delay 184467440737095516.14s", 2), vec![u64::MAX - 1]);
    assert_eq!(parse_delays(b"delay 184467440737095516.149s", 2), vec![u64::MAX]);
}

#[test]
fn logical_screen_is_read() {
    assert_eq!(parse_logical_screen(REPORT.as_bytes()), (100, 80));
    assert_eq!(parse_logical_screen(b"logical screen 640x480\nlogical screen 3x4"), (3, 4));
    assert_eq!(parse_logical_screen(b"  the logical screen is 12x34 wide"), (12, 34));
}

#[test]
fn logical_screen_defaults_to_zero() {
    assert_eq!(parse_logical_screen(b""), (0, 0));
    assert_eq!(parse_logical_screen(b"screen 10x10"), (0, 0));
    assert_eq!(parse_logical_screen(b"logical screen"), (0, 0));
    assert_eq!(parse_logical_screen(b"logical screen axb"), (0, 0));
    assert_eq!(parse_logical_screen(b"logical screen 10x"), (10, 0));
    assert_eq!(parse_logical_screen(b"logical screen x7"), (0, 7));
    assert_eq!(parse_logical_screen(b"logical screen 4294967296x4294967295"), (0, 4294967295));
    assert_eq!(parse_logical_screen(b"logical screen 5x6\nlogical screen none"), (5, 6));
    assert_eq!(parse_logical_screen(b"logical screen 5x6x7"), (5, 0));
}

#[test]
fn full_frames_are_not_optimized() {
    assert!(!check_if_optimized(REPORT.as_bytes()));
    assert!(!check_if_optimized(b""));
    assert!(!check_if_optimized(b"logical screen 10x10\n+ image #0 10x10 at 0,0\n"));
}

#[test]
fn smaller_frame_is_optimized() {
    let text = b"* a.gif 2 images\n  logical screen 100x80\n  + image #0 100x80\n  + image #1 60x40 at 10,20\n";
    assert!(check_if_optimized(text));
    assert!(check_if_optimized(b"logical screen 100x80\n+ image #0 100x81\n"));
    assert!(check_if_optimized(b"logical screen 100x80\n+ image #0 axb\n"));
}

#[test]
fn offset_frame_is_optimized() {
    assert!(check_if_optimized(b"logical screen 10x10\n+ image #0 10x10 at 0,5\n"));
    assert!(check_if_optimized(b"logical screen 10x10\n+ image #0 10x10 at 3,0\n"));
    assert!(check_if_optimized(b"+ image #0 10x10 at 1,1\n"));
    assert!(!check_if_optimized(b"logical screen 10x10\n+ image #0 10x10 at 5\n"));
    assert!(!check_if_optimized(b"logical screen 10x10\n+ image #0 10x10 at\n"));
    assert!(!check_if_optimized(b"logical screen 10x10\n+ image #0 10x10 at x,y\n"));
    assert!(!check_if_optimized(b"logical screen 10x10\n+ image #0 10x10 at at 1,1\n"));
}

#[test]
fn size_is_compared_only_with_a_known_screen() {
    assert!(!check_if_optimized(b"+ image #0 60x40\n"));
    assert!(!check_if_optimized(b"+ image #0 60x40\nlogical screen 100x80\n"));
    assert!(!check_if_optimized(b"logical screen 100xq\n+ image #0 60x40\n"));
    assert!(!check_if_optimized(b"logical screen\n+ image #0 60x40\n"));
    assert!(check_if_optimized(b"logical screen 1x1\nlogical screen 60x40\n+ image #0 1x1\n"));
}

#[test]
fn only_frame_lines_count() {
    assert!(!check_if_optimized(b"logical screen 10x10\nimage #0 5x5 at 1,1\n"));
    assert!(!check_if_optimized(b"logical screen 10x10\n+ image 5x5 at 1,1\n"));
    assert!(!check_if_optimized(b"logical screen 10x10\n+ image #0\n"));
    assert!(check_if_optimized(b"logical screen 10x10\r\n \t + image #0 5x5\r\n"));
    assert!(!check_if_optimized(b"x logical screen 10x10\n+ image #0 5x5\n"));
}
