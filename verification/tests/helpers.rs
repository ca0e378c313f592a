use tui_music::player::VizRing;
use tui_music::text::{contains_chars, trim_chars};
use tui_music::player::RepeatMode;
use tui_music::ui::{
    fmt_dur, on_off_label, play_state_label, progress_bar, progress_cells, repeat_label, sub_block,
};

#[test]
fn formats_clock_time() {
    assert_eq!(fmt_dur(0), "0:00");
    assert_eq!(fmt_dur(65), "1:05");
    assert_eq!(fmt_dur(125), "2:05");
    assert_eq!(fmt_dur(3600), "60:00");
    assert_eq!(fmt_dur(59), "0:59");
}

#[test]
fn picks_sub_block_glyphs() {
    assert_eq!(sub_block(1), "▁");
    assert_eq!(sub_block(3), "▃");
    assert_eq!(sub_block(7), "▇");
    assert_eq!(sub_block(8), "█");
    assert_eq!(sub_block(0), "█");
}

#[test]
fn ring_keeps_the_most_recent_values() {
    let mut r: VizRing<i32> = VizRing::new(3, 0);
    assert!(r.latest(4).is_empty());
    assert_eq!(r.latest_padded(2, 9), vec![9, 9]);
    r.push(1);
    r.push(2);
    assert_eq!(r.latest(5), vec![1, 2]);
    r.push_batch(&[3, 4, 5]);
    assert_eq!(r.latest(10), vec![3, 4, 5]);
    assert_eq!(r.latest(2), vec![4, 5]);
    assert_eq!(r.latest_padded(5, 0), vec![3, 4, 5, 0, 0]);
    r.push(6);
    assert_eq!(r.latest(3), vec![4, 5, 6]);
}

fn chars_of(s: &str) -> Vec<char> {
    s.chars().collect()
}

#[test]
fn finds_substrings_and_trims() {
    let s = chars_of("Hello world");
    assert!(contains_chars(&s, &chars_of("lo w")));
    assert!(contains_chars(&s, &chars_of("")));
    assert!(!contains_chars(&s, &chars_of("word")));
    assert!(!contains_chars(&chars_of("ab"), &chars_of("abc")));
    let t = trim_chars(&chars_of("\u{3000} 日语\t\n"));
    assert_eq!(t, chars_of("日语"));
    assert!(trim_chars(&chars_of("  ")).is_empty());
}

#[test]
fn fills_progress_bar() {
    assert_eq!(progress_cells(0, 1000, 40), 0);
    assert_eq!(progress_cells(500, 1000, 40), 20);
    assert_eq!(progress_cells(999, 1000, 40), 39);
    assert_eq!(progress_cells(5000, 1000, 40), 40);
    assert_eq!(progress_cells(5000, 0, 40), 0);
    assert_eq!(progress_cells(u64::MAX, u64::MAX, usize::MAX), usize::MAX);
}

#[test]
fn footer_labels_and_bar() {
    assert_eq!(repeat_label(RepeatMode::Off), "Off");
    assert_eq!(repeat_label(RepeatMode::One), "One");
    assert_eq!(repeat_label(RepeatMode::All), "List");
    assert_eq!(play_state_label(true), "Playing");
    assert_eq!(play_state_label(false), "Paused");
    assert_eq!(on_off_label(true), "On");
    assert_eq!(on_off_label(false), "Off");
    assert_eq!(progress_bar(5, 2), "[==---]");
    assert_eq!(progress_bar(0, 0), "[]");
    assert_eq!(progress_bar(3, 3), "[===]");
}

#[test]
fn empty_batch_into_empty_ring() {
    let mut r: VizRing<i32> = VizRing::new(0, 0);
    r.push_batch(&[]);
    assert!(r.latest(3).is_empty());
    assert_eq!(r.latest_padded(2, 7), vec![7, 7]);
    let mut a: VizRing<i32> = VizRing::new(4, 0);
    let mut b: VizRing<i32> = VizRing::new(4, 0);
    a.push_batch(&[1, 2, 3]);
    a.push_batch(&[4, 5]);
    b.push_batch(&[1, 2, 3, 4, 5]);
    assert_eq!(a.latest(10), b.latest(10));
    assert_eq!(a.latest_padded(6, 0), vec![2, 3, 4, 5, 0, 0]);
}
