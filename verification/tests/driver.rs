//! End-to-end checks of the byte streams the driver emits, observed
//! through the recording transport.

use st7789::protocol::TxEvent;
use st7789::session::Error;
use st7789::session::Orientation;
use st7789::session::ST7789;
use st7789::session::orientation_byte;
use st7789::transport::FlakyTransport;
use st7789::transport::Recorder;

fn fresh(off_x: u16, off_y: u16) -> ST7789<Recorder> {
    ST7789::new(Recorder::new(), 240, 240, off_x, off_y)
}

fn word_bytes(w: u16) -> Vec<TxEvent> {
    vec![TxEvent::Byte((w >> 8) as u8), TxEvent::Byte((w & 0xff) as u8)]
}

fn window_bytes(sx: u16, sy: u16, ex: u16, ey: u16) -> Vec<TxEvent> {
    let mut v = vec![TxEvent::Cmd(0x2a)];
    v.extend(word_bytes(sx));
    v.extend(word_bytes(ex));
    v.push(TxEvent::Cmd(0x2b));
    v.extend(word_bytes(sy));
    v.extend(word_bytes(ey));
    v
}

/// Splits a log of per-pixel plots (13 events each) into plotted
/// coordinates, checking the exact framing of every plot.
fn decode_pixel_plots(log: &[TxEvent]) -> Vec<(u16, u16)> {
    assert_eq!(log.len() % 13, 0, "log is not a sequence of single-pixel plots");
    let mut pts = Vec::new();
    for chunk in log.chunks(13) {
        let word = |hi: &TxEvent, lo: &TxEvent| -> u16 {
            match (hi, lo) {
                (TxEvent::Byte(h), TxEvent::Byte(l)) => ((*h as u16) << 8) | (*l as u16),
                _ => panic!("expected two data bytes"),
            }
        };
        assert_eq!(chunk[0], TxEvent::Cmd(0x2a));
        let x0 = word(&chunk[1], &chunk[2]);
        let x1 = word(&chunk[3], &chunk[4]);
        assert_eq!(chunk[5], TxEvent::Cmd(0x2b));
        let y0 = word(&chunk[6], &chunk[7]);
        let y1 = word(&chunk[8], &chunk[9]);
        assert_eq!(chunk[10], TxEvent::Cmd(0x2c));
        assert_eq!(x0, x1, "pixel plot must use a one-point window");
        assert_eq!(y0, y1, "pixel plot must use a one-point window");
        pts.push((x0, y0));
    }
    pts
}

#[test]
fn rect_scenario_exact_bytes() {
    let mut s = fresh(0, 0);
    s.draw_rect(10, 10, 11, 11, 0xffff).unwrap();
    let mut expected = window_bytes(10, 10, 11, 11);
    expected.push(TxEvent::Cmd(0x2c));
    for _ in 0..4 {
        expected.extend(word_bytes(0xffff));
    }
    assert_eq!(s.bus.log, expected);
}

#[test]
fn rect_emits_area_color_words() {
    let mut s = fresh(3, 7);
    s.draw_rect(1, 2, 3, 3, 0x1234).unwrap();
    let mut expected = window_bytes(4, 9, 6, 10);
    expected.push(TxEvent::Cmd(0x2c));
    for _ in 0..6 {
        expected.extend(word_bytes(0x1234));
    }
    assert_eq!(s.bus.log, expected);
}

#[test]
fn hard_reset_pin_sequence() {
    let mut s = fresh(0, 0);
    s.hard_reset().unwrap();
    assert_eq!(
        s.bus.log,
        vec![
            TxEvent::ResetHigh,
            TxEvent::DelayUs(10),
            TxEvent::ResetLow,
            TxEvent::DelayUs(10),
            TxEvent::ResetHigh,
            TxEvent::DelayUs(10),
        ]
    );
}

#[test]
fn set_pixel_is_window_plus_one_word() {
    let mut a = fresh(0, 0);
    a.set_pixel(5, 7, 0x1234).unwrap();

    let mut b = fresh(0, 0);
    b.set_address_window(5, 7, 5, 7).unwrap();
    let mut expected = b.release().log;
    expected.push(TxEvent::Cmd(0x2c));
    expected.extend(word_bytes(0x1234));
    assert_eq!(a.bus.log, expected);
}

#[test]
fn set_pixel_applies_offset() {
    let mut s = fresh(52, 40);
    s.set_pixel(0, 0, 0x0001).unwrap();
    let mut expected = window_bytes(52, 40, 52, 40);
    expected.push(TxEvent::Cmd(0x2c));
    expected.extend(word_bytes(0x0001));
    assert_eq!(s.bus.log, expected);
}

#[test]
fn blit_length_mismatch_rejected_before_traffic() {
    let mut s = fresh(0, 0);
    let data = [0u8; 7];
    assert_eq!(s.blit_pixels(0, 0, 2, 2, &data), Err(Error::InvalidInput));
    assert!(s.bus.log.is_empty());
}

#[test]
fn blit_empty_region_rejected() {
    let mut s = fresh(0, 0);
    let data: [u8; 0] = [];
    assert_eq!(s.blit_pixels(3, 3, 0, 5, &data), Err(Error::InvalidInput));
    assert!(s.bus.log.is_empty());
}

#[test]
fn blit_streams_raw_bytes() {
    let mut s = fresh(0, 0);
    let data = [0xde, 0xad, 0xbe, 0xef, 0x01, 0x02, 0x03, 0x04];
    s.blit_pixels(1, 2, 2, 2, &data).unwrap();
    let mut expected = window_bytes(1, 2, 2, 3);
    expected.push(TxEvent::Cmd(0x2c));
    for b in data {
        expected.push(TxEvent::Byte(b));
    }
    assert_eq!(s.bus.log, expected);
}

#[test]
fn set_pixels_streams_exactly_the_given_words() {
    let mut s = fresh(0, 0);
    let colors = [0x0102, 0x0304, 0x0506];
    s.set_pixels(0, 0, 1, 1, &colors).unwrap();
    let mut expected = window_bytes(0, 0, 1, 1);
    expected.push(TxEvent::Cmd(0x2c));
    for c in colors {
        expected.extend(word_bytes(c));
    }
    assert_eq!(s.bus.log, expected);
}

#[test]
fn set_pixels_buffering_does_not_change_the_bytes() {
    // 70 words = 140 bytes: crosses the 128-byte transfer buffer flush.
    let colors: Vec<u16> = (0..70u16).map(|i| i * 257).collect();
    let mut s = fresh(0, 0);
    s.set_pixels(0, 0, 0, 69, &colors).unwrap();
    let mut expected = window_bytes(0, 0, 0, 69);
    expected.push(TxEvent::Cmd(0x2c));
    for c in &colors {
        expected.extend(word_bytes(*c));
    }
    assert_eq!(s.bus.log, expected);
}

#[test]
fn zero_length_line_plots_exactly_one_pixel() {
    let mut a = fresh(0, 0);
    a.draw_line(3, 4, 3, 4, 0x0f0f).unwrap();
    let mut b = fresh(0, 0);
    b.set_pixel(3, 4, 0x0f0f).unwrap();
    assert_eq!(a.bus.log, b.bus.log);
    assert_eq!(decode_pixel_plots(&a.bus.log), vec![(3, 4)]);
}

#[test]
fn axis_aligned_lines_are_single_window_runs() {
    let mut h = fresh(0, 0);
    h.draw_line(9, 5, 2, 5, 0x1111).unwrap();
    let mut hr = fresh(0, 0);
    hr.draw_rect(2, 5, 9, 5, 0x1111).unwrap();
    assert_eq!(h.bus.log, hr.bus.log);

    let mut v = fresh(0, 0);
    v.draw_line(4, 9, 4, 1, 0x2222).unwrap();
    let mut vr = fresh(0, 0);
    vr.draw_rect(4, 1, 4, 9, 0x2222).unwrap();
    assert_eq!(v.bus.log, vr.bus.log);
}

fn assert_connected_path(pts: &[(u16, u16)], from: (u16, u16), to: (u16, u16)) {
    assert_eq!(*pts.first().unwrap(), from);
    assert_eq!(*pts.last().unwrap(), to);
    for w in pts.windows(2) {
        let dx = (w[1].0 as i32 - w[0].0 as i32).abs();
        let dy = (w[1].1 as i32 - w[0].1 as i32).abs();
        assert!(dx <= 1 && dy <= 1, "gap between {:?} and {:?}", w[0], w[1]);
        assert!(dx == 1 || dy == 1, "stalled between {:?} and {:?}", w[0], w[1]);
    }
}

#[test]
fn diagonal_lines_are_connected() {
    for &(x0, y0, x1, y1) in
        &[(0u16, 0u16, 5u16, 3u16), (5, 3, 0, 0), (2, 9, 7, 1), (10, 10, 3, 18), (1, 1, 8, 8)]
    {
        let mut s = fresh(0, 0);
        s.draw_line(x0, y0, x1, y1, 0xabcd).unwrap();
        let pts = decode_pixel_plots(&s.bus.log);
        assert_connected_path(&pts, (x0, y0), (x1, y1));
    }
}

#[test]
fn shallow_line_exact_points() {
    // From (0,0) to (5,2): slope 2/5, rounded to nearest at each station.
    let mut s = fresh(0, 0);
    s.draw_line(0, 0, 5, 2, 0xabcd).unwrap();
    let pts = decode_pixel_plots(&s.bus.log);
    assert_eq!(pts, vec![(0, 0), (1, 0), (2, 1), (3, 1), (4, 2), (5, 2)]);
}

#[test]
fn orientation_bytes_are_the_fixed_encodings() {
    assert_eq!(orientation_byte(Orientation::Portrait), 0x00);
    assert_eq!(orientation_byte(Orientation::Landscape), 0x60);
    assert_eq!(orientation_byte(Orientation::PortraitSwapped), 0xc0);
    assert_eq!(orientation_byte(Orientation::LandscapeSwapped), 0xa0);
}

#[test]
fn set_orientation_round_trips_through_the_log() {
    for o in [
        Orientation::Portrait,
        Orientation::Landscape,
        Orientation::PortraitSwapped,
        Orientation::LandscapeSwapped,
    ] {
        let mut s = fresh(0, 0);
        s.draw_rect(0, 0, 1, 0, 0x5555).unwrap();
        s.set_orientation(o).unwrap();
        // Read back the last mode byte sent: it is the orientation's
        // fixed encoding, right after the mode-control opcode.
        let n = s.bus.log.len();
        assert_eq!(s.bus.log[n - 2], TxEvent::Cmd(0x36));
        assert_eq!(s.bus.log[n - 1], TxEvent::Byte(orientation_byte(o)));
    }
}

#[test]
fn init_sequence_exact() {
    let mut s = fresh(0, 0);
    s.set_orientation(Orientation::Landscape).unwrap();
    s.bus.log.clear();
    s.init().unwrap();
    let expected = vec![
        TxEvent::ResetHigh,
        TxEvent::DelayUs(10),
        TxEvent::ResetLow,
        TxEvent::DelayUs(10),
        TxEvent::ResetHigh,
        TxEvent::DelayUs(10),
        TxEvent::Cmd(0x01),
        TxEvent::DelayUs(150000),
        TxEvent::Cmd(0x11),
        TxEvent::DelayUs(10000),
        TxEvent::Cmd(0x3a),
        TxEvent::Byte(0x55),
        TxEvent::Cmd(0x36),
        TxEvent::Byte(0x60),
        TxEvent::Cmd(0x21),
        TxEvent::Cmd(0x13),
        TxEvent::Cmd(0x29),
        TxEvent::DelayUs(10000),
    ];
    assert_eq!(s.bus.log, expected);
}

#[test]
fn scroll_offset_big_endian() {
    let mut s = fresh(0, 0);
    s.set_scroll_offset(0x1234).unwrap();
    assert_eq!(
        s.bus.log,
        vec![TxEvent::Cmd(0x37), TxEvent::Byte(0x12), TxEvent::Byte(0x34)]
    );
}

#[test]
fn circle_outline_symmetric_both_axes() {
    let mut s = fresh(0, 0);
    s.draw_circle_outline(20, 30, 7, 0x0ff0).unwrap();
    let pts = decode_pixel_plots(&s.bus.log);
    for &(x, y) in &pts {
        let a = x as i32 - 20;
        let b = y as i32 - 30;
        let mx = ((20 - a) as u16, y);
        let my = (x, (30 - b) as u16);
        assert!(pts.contains(&mx), "missing horizontal mirror of ({x},{y})");
        assert!(pts.contains(&my), "missing vertical mirror of ({x},{y})");
    }
}

#[test]
fn circle_outline_radius_zero_plots_center() {
    let mut s = fresh(0, 0);
    s.draw_circle_outline(5, 6, 0, 0x1234).unwrap();
    let pts = decode_pixel_plots(&s.bus.log);
    assert_eq!(pts.len(), 8);
    assert!(pts.iter().all(|&p| p == (5, 6)));
}

#[test]
fn circle_outline_points_on_radius() {
    // All plotted points lie at distance close to the radius.
    let mut s = fresh(0, 0);
    s.draw_circle_outline(50, 50, 10, 0x1234).unwrap();
    let pts = decode_pixel_plots(&s.bus.log);
    for &(x, y) in &pts {
        let a = x as i32 - 50;
        let b = y as i32 - 50;
        let d2 = a * a + b * b;
        assert!(d2 <= 100 && d2 > 80, "({x},{y}) is off the outline: d2 = {d2}");
    }
    assert!(pts.contains(&(60, 50)));
    assert!(pts.contains(&(40, 50)));
    assert!(pts.contains(&(50, 60)));
    assert!(pts.contains(&(50, 40)));
}

#[test]
fn circle_filled_is_paired_chords() {
    let mut s = fresh(0, 0);
    s.draw_circle_filled(10, 10, 2, 0x7777).unwrap();
    // k = 0: y = 2; k = 1: y = floor(sqrt(3)) = 1.
    let mut expected = Vec::new();
    for (x, y0, y1) in [(10u16, 8u16, 12u16), (10, 8, 12), (11, 9, 11), (9, 9, 11)] {
        expected.extend(window_bytes(x, y0, x, y1));
        expected.push(TxEvent::Cmd(0x2c));
        for _ in 0..(y1 - y0 + 1) {
            expected.extend(word_bytes(0x7777));
        }
    }
    assert_eq!(s.bus.log, expected);
}

#[test]
fn circle_filled_radius_zero_is_silent() {
    let mut s = fresh(0, 0);
    s.draw_circle_filled(10, 10, 0, 0x7777).unwrap();
    assert!(s.bus.log.is_empty());
}

#[test]
fn glyph_plots_set_bits_above_left() {
    // One column fully lit (7 rows), the rest dark.
    let glyph = [0x7f, 0x00, 0x00, 0x00, 0x00];
    let mut s = fresh(0, 0);
    s.draw_glyph(&glyph, 10, 10, 0x00ff).unwrap();
    let pts = decode_pixel_plots(&s.bus.log);
    assert_eq!(pts, vec![(10, 10), (10, 9), (10, 8), (10, 7), (10, 6), (10, 5), (10, 4)]);
}

#[test]
fn glyph_maps_columns_to_decreasing_x() {
    // Bit 0 of every column: a horizontal stroke through the anchor row.
    let glyph = [0x01, 0x01, 0x01, 0x01, 0x01];
    let mut s = fresh(0, 0);
    s.draw_glyph(&glyph, 10, 10, 0x00ff).unwrap();
    let pts = decode_pixel_plots(&s.bus.log);
    assert_eq!(pts, vec![(10, 10), (9, 10), (8, 10), (7, 10), (6, 10)]);
}

#[test]
fn isqrt_exact_values() {
    assert_eq!(st7789::circle::isqrt(0), 0);
    assert_eq!(st7789::circle::isqrt(1), 1);
    assert_eq!(st7789::circle::isqrt(3), 1);
    assert_eq!(st7789::circle::isqrt(4), 2);
    assert_eq!(st7789::circle::isqrt(99), 9);
    assert_eq!(st7789::circle::isqrt(100), 10);
    assert_eq!(st7789::circle::isqrt(4294836225), 65535);
    assert_eq!(st7789::circle::isqrt(4294967295), 65535);
}

#[test]
fn bus_failure_surfaces_display_error() {
    let mut s = ST7789::new(FlakyTransport::new(0), 240, 240, 0, 0);
    assert_eq!(s.draw_rect(0, 0, 1, 1, 0x1234), Err(Error::DisplayError));
    assert_eq!(s.set_pixel(0, 0, 0x1234), Err(Error::DisplayError));
    assert_eq!(s.set_scroll_offset(1), Err(Error::DisplayError));
}

#[test]
fn pin_failure_surfaces_pin_error() {
    let mut s = ST7789::new(FlakyTransport::new(0), 240, 240, 0, 0);
    assert_eq!(s.hard_reset(), Err(Error::Pin));
    assert_eq!(s.init(), Err(Error::Pin));
}

#[test]
fn mid_stream_failure_aborts() {
    // Budget 1: the window's column command goes out, the first data
    // write fails; the call aborts with the bus error and nothing more is
    // sent.
    let mut s = ST7789::new(FlakyTransport::new(1), 240, 240, 0, 0);
    assert_eq!(s.set_pixel(2, 3, 0x1234), Err(Error::DisplayError));
    assert_eq!(s.bus.log, vec![TxEvent::Cmd(0x2a)]);
}

#[test]
fn failed_orientation_keeps_the_old_one() {
    let mut s = ST7789::new(FlakyTransport::new(0), 240, 240, 0, 0);
    assert_eq!(s.set_orientation(Orientation::Landscape), Err(Error::DisplayError));
    assert_eq!(s.orientation, Orientation::Portrait);
}

#[test]
fn release_returns_the_transport() {
    let mut s = fresh(0, 0);
    s.hard_reset().unwrap();
    let bus = s.release();
    assert_eq!(bus.log.len(), 6);
}
