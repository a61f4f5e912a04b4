//! The driver's cross-cutting guarantees, stated and proved over the same
//! spec functions the drawing contracts use.

use vstd::prelude::*;

use crate::geometry::abs_i;
use crate::geometry::lemma_line_connected;
use crate::geometry::lemma_line_endpoints;
use crate::geometry::line_len;
use crate::geometry::line_point;
use crate::geometry::line_points;
use crate::geometry::sgn;
use crate::protocol::data_word;
use crate::protocol::lemma_pixel_is_unit_rect;
use crate::protocol::lemma_repeat_word_bytes;
use crate::protocol::pixel_events;
use crate::protocol::rect_events;
use crate::protocol::repeat_word;
use crate::protocol::window_events;
use crate::protocol::word_stream;
use crate::protocol::TxEvent;
use crate::protocol::MADCTL;
use crate::protocol::RAMWR;
use crate::session::orientation_bits;
use crate::session::Orientation;

verus! {

/// A filled rectangle emits exactly one window set, one RAM-write opcode,
/// and `(x1 - x0 + 1) * (y1 - y0 + 1)` color words, each equal to the
/// requested color: the stream decomposes into those three parts, the word
/// part holds two bytes per pixel, and every word is the color's
/// big-endian pair.
pub proof fn lemma_rect_stream_exact(
    x0: u16,
    y0: u16,
    x1: u16,
    y1: u16,
    color: u16,
    offx: u16,
    offy: u16,
)
    requires
        x0 <= x1,
        y0 <= y1,
    ensures
        rect_events(x0, y0, x1, y1, color, offx, offy) == window_events(
            (x0 + offx) as u16,
            (y0 + offy) as u16,
            (x1 + offx) as u16,
            (y1 + offy) as u16,
        ) + seq![TxEvent::Cmd(RAMWR)] + repeat_word(
            color,
            ((x1 - x0 + 1) * (y1 - y0 + 1)) as nat,
        ),
        repeat_word(color, ((x1 - x0 + 1) * (y1 - y0 + 1)) as nat).len() == 2 * ((x1 - x0 + 1) * (
        y1 - y0 + 1)),
        forall|k: int|
            0 <= k < (x1 - x0 + 1) * (y1 - y0 + 1) ==> #[trigger] repeat_word(
                color,
                ((x1 - x0 + 1) * (y1 - y0 + 1)) as nat,
            ).subrange(2 * k, 2 * k + 2) == data_word(color),
{
    assert((x1 - x0 + 1) * (y1 - y0 + 1) >= 1) by (nonlinear_arith)
        requires
            x0 <= x1,
            y0 <= y1,
    ;
    lemma_repeat_word_bytes(color, ((x1 - x0 + 1) * (y1 - y0 + 1)) as nat);
}

/// A single pixel write is byte-for-byte a one-point window, one RAM-write
/// opcode, and one color word — the same stream a one-by-one rectangle
/// produces.
pub proof fn lemma_pixel_stream_exact(x: u16, y: u16, color: u16, offx: u16, offy: u16)
    ensures
        pixel_events(x, y, color, offx, offy) == window_events(
            (x + offx) as u16,
            (y + offy) as u16,
            (x + offx) as u16,
            (y + offy) as u16,
        ) + seq![TxEvent::Cmd(RAMWR)] + data_word(color),
        pixel_events(x, y, color, offx, offy) == rect_events(x, y, x, y, color, offx, offy),
{
    lemma_pixel_is_unit_rect(x, y, color, offx, offy);
}

/// A zero-length segment covers exactly one point — its own endpoint —
/// and the one-point rectangle it is drawn as emits exactly the stream of
/// a single pixel write there.
pub proof fn lemma_zero_length_line(x: u16, y: u16, color: u16, offx: u16, offy: u16)
    ensures
        line_points(x as int, y as int, x as int, y as int).len() == 1,
        line_points(x as int, y as int, x as int, y as int)[0] == (x as int, y as int),
        rect_events(x, y, x, y, color, offx, offy) == pixel_events(x, y, color, offx, offy),
{
    lemma_line_endpoints(x as int, y as int, x as int, y as int);
    lemma_pixel_is_unit_rect(x, y, color, offx, offy);
}

/// The rasterized segment between any two points is a connected path: it
/// starts and ends exactly at the endpoints, and between consecutive
/// plotted points the dominant axis advances by exactly one unit while
/// the other axis moves by at most one — no gap greater than one unit in
/// either axis direction anywhere along the path.
pub proof fn lemma_line_path_connected(x0: int, y0: int, x1: int, y1: int)
    ensures
        line_points(x0, y0, x1, y1).len() >= 1,
        line_points(x0, y0, x1, y1).first() == (x0, y0),
        line_points(x0, y0, x1, y1).last() == (x1, y1),
        forall|k: int|
            0 <= k && k + 1 < line_len(x0, y0, x1, y1) ==> abs_i(
                (#[trigger] line_point(x0, y0, x1, y1, k + 1)).0 - line_point(x0, y0, x1, y1, k).0,
            ) <= 1 && abs_i(
                line_point(x0, y0, x1, y1, k + 1).1 - line_point(x0, y0, x1, y1, k).1,
            ) <= 1,
        forall|k: int|
            0 <= k && k + 1 < line_len(x0, y0, x1, y1) && abs_i(y1 - y0) <= abs_i(x1 - x0) ==> (
            #[trigger] line_point(x0, y0, x1, y1, k + 1)).0 - line_point(x0, y0, x1, y1, k).0
                == sgn(x1 - x0),
        forall|k: int|
            0 <= k && k + 1 < line_len(x0, y0, x1, y1) && abs_i(y1 - y0) > abs_i(x1 - x0) ==> (
            #[trigger] line_point(x0, y0, x1, y1, k + 1)).1 - line_point(x0, y0, x1, y1, k).1
                == sgn(y1 - y0),
{
    lemma_line_endpoints(x0, y0, x1, y1);
    assert forall|k: int| 0 <= k && k + 1 < line_len(x0, y0, x1, y1) implies abs_i(
        (#[trigger] line_point(x0, y0, x1, y1, k + 1)).0 - line_point(x0, y0, x1, y1, k).0,
    ) <= 1 && abs_i(line_point(x0, y0, x1, y1, k + 1).1 - line_point(x0, y0, x1, y1, k).1) <= 1
        && (abs_i(y1 - y0) <= abs_i(x1 - x0) ==> line_point(x0, y0, x1, y1, k + 1).0 - line_point(
        x0,
        y0,
        x1,
        y1,
        k,
    ).0 == sgn(x1 - x0)) && (abs_i(y1 - y0) > abs_i(x1 - x0) ==> line_point(
        x0,
        y0,
        x1,
        y1,
        k + 1,
    ).1 - line_point(x0, y0, x1, y1, k).1 == sgn(y1 - y0)) by {
        lemma_line_connected(x0, y0, x1, y1, k);
    }
}

/// Filling a window with one color is byte-for-byte streaming that many
/// copies of the color word: the rectangle's word run equals the pixel
/// streamer's run over a constant color sequence of the same length.
pub proof fn lemma_repeat_word_is_constant_stream(c: u16, n: nat)
    ensures
        repeat_word(c, n) == word_stream(Seq::new(n, |i: int| c)),
    decreases n,
{
    let s = Seq::new(n, |i: int| c);
    if n == 0 {
        assert(repeat_word(c, n) =~= word_stream(s));
    } else {
        lemma_repeat_word_is_constant_stream(c, (n - 1) as nat);
        assert(s.drop_last() =~= Seq::new((n - 1) as nat, |i: int| c));
        assert(repeat_word(c, n) =~= word_stream(s));
    }
}

/// Issuing an orientation writes its fixed mode byte last: after any
/// prior traffic, the stream `set_orientation` appends ends with the
/// mode-control opcode followed by exactly the orientation's encoding, so
/// reading back the last mode byte sent yields that encoding.
pub proof fn lemma_orientation_roundtrip(log: Seq<TxEvent>, o: Orientation)
    ensures
        (log + seq![TxEvent::Cmd(MADCTL), TxEvent::Byte(orientation_bits(o))]).last()
            == TxEvent::Byte(orientation_bits(o)),
        (log + seq![TxEvent::Cmd(MADCTL), TxEvent::Byte(orientation_bits(o))])[(log.len() + 2) as int
            - 2] == TxEvent::Cmd(MADCTL),
{
}

} // verus!
