use vstd::prelude::*;

use crate::player::RepeatMode;
use crate::text::{decimal, digit, digit_char, push_decimal, string_from_chars};

verus! {

/// The block glyph that fills `level` eighths of a cell, bottom up.
pub open spec fn sub_block_glyph(level: u8) -> Seq<char> {
    if level == 1 {
        "▁"@
    } else if level == 2 {
        "▂"@
    } else if level == 3 {
        "▃"@
    } else if level == 4 {
        "▄"@
    } else if level == 5 {
        "▅"@
    } else if level == 6 {
        "▆"@
    } else if level == 7 {
        "▇"@
    } else {
        "█"@
    }
}

/// Glyph for a partially filled spectrum cell; levels outside `1..=7` draw a full block.
pub fn sub_block(level: u8) -> (glyph: &'static str)
    ensures
        glyph@ == sub_block_glyph(level),
{
    match level {
        1 => "▁",
        2 => "▂",
        3 => "▃",
        4 => "▄",
        5 => "▅",
        6 => "▆",
        7 => "▇",
        _ => "█",
    }
}

/// `m:ss` for a length of `secs` seconds: whole minutes, then seconds as two digits.
pub open spec fn clock_text(secs: u64) -> Seq<char> {
    let m = secs / 60;
    let r = secs % 60;
    decimal(m as nat) + seq![':', digit_char((r / 10) as nat), digit_char((r % 10) as nat)]
}

/// Formats a playback position or length of `secs` seconds as `m:ss`.
pub fn fmt_dur(secs: u64) -> (r: String)
    ensures
        r@ == clock_text(secs),
{
    let m = secs / 60;
    let rest = secs % 60;
    let mut out: Vec<char> = Vec::new();
    push_decimal(m, &mut out);
    out.push(':');
    out.push(digit(rest / 10));
    out.push(digit(rest % 10));
    assert(out@ =~= clock_text(secs));
    string_from_chars(out.as_slice())
}

/// How many of `width` cells of the progress bar are filled at
/// `position_ms` into a track of `duration_ms`: the played fraction of the
/// width, rounded down and capped at the full width; none for an unknown length.
pub open spec fn progress_fill(position_ms: u64, duration_ms: u64, width: usize) -> int {
    if duration_ms == 0 {
        0
    } else {
        let f = (position_ms as int * width as int) / duration_ms as int;
        if f > width {
            width as int
        } else {
            f
        }
    }
}

/// Number of filled cells in a progress bar `width` cells wide.
pub fn progress_cells(position_ms: u64, duration_ms: u64, width: usize) -> (r: usize)
    ensures
        r as int == progress_fill(position_ms, duration_ms, width),
        r <= width,
{
    if duration_ms == 0 {
        return 0;
    }
    assert(position_ms as int * width as int <= u128::MAX) by (nonlinear_arith)
        requires
            position_ms <= 0xFFFF_FFFF_FFFF_FFFFu64,
            width as int <= 0xFFFF_FFFF_FFFF_FFFFint,
    ;
    let prod: u128 = position_ms as u128 * width as u128;
    let f: u128 = prod / duration_ms as u128;
    if f > width as u128 {
        width
    } else {
        f as usize
    }
}

/// The footer's name for a repeat mode.
pub open spec fn repeat_text(m: RepeatMode) -> Seq<char> {
    match m {
        RepeatMode::Off => "Off"@,
        RepeatMode::One => "One"@,
        RepeatMode::All => "List"@,
    }
}

/// The footer's label for a repeat mode: `Off`, `One`, or `List` for the whole list.
pub fn repeat_label(m: RepeatMode) -> (r: &'static str)
    ensures
        r@ == repeat_text(m),
{
    match m {
        RepeatMode::Off => "Off",
        RepeatMode::One => "One",
        RepeatMode::All => "List",
    }
}

/// The footer's label for the play state.
pub fn play_state_label(playing: bool) -> (r: &'static str)
    ensures
        r@ == (if playing {
            "Playing"@
        } else {
            "Paused"@
        }),
{
    if playing {
        "Playing"
    } else {
        "Paused"
    }
}

/// The footer's label for the shuffle setting.
pub fn on_off_label(on: bool) -> (r: &'static str)
    ensures
        r@ == (if on {
            "On"@
        } else {
            "Off"@
        }),
{
    if on {
        "On"
    } else {
        "Off"
    }
}

/// The progress bar text: `[`, `filled` times `=`, the rest of `width` as `-`, `]`.
pub open spec fn progress_text(width: nat, filled: nat) -> Seq<char> {
    seq!['['] + Seq::new(filled, |i: int| '=') + Seq::new((width - filled) as nat, |i: int| '-')
        + seq![']']
}

/// The progress bar text for `filled` of `width` cells.
pub fn progress_bar(width: usize, filled: usize) -> (r: String)
    requires
        filled <= width,
    ensures
        r@ == progress_text(width as nat, filled as nat),
{
    let mut out: Vec<char> = Vec::new();
    out.push('[');
    let mut i: usize = 0;
    while i < width
        invariant
            i <= width,
            filled <= width,
            out@ =~= seq!['['] + Seq::new(
                (if i < filled {
                    i
                } else {
                    filled
                }) as nat,
                |k: int| '=',
            ) + Seq::new(
                (if i < filled {
                    0
                } else {
                    i - filled
                }) as nat,
                |k: int| '-',
            ),
        decreases width - i,
    {
        if i < filled {
            out.push('=');
        } else {
            out.push('-');
        }
        i = i + 1;
    }
    out.push(']');
    assert(out@ =~= progress_text(width as nat, filled as nat));
    string_from_chars(out.as_slice())
}

} // verus!
