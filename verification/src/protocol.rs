//! Wire-protocol model: the events a driver emits towards the panel, the
//! controller opcodes, and the spec-level byte framing (big-endian 16-bit
//! words, column/row address windows).

use vstd::prelude::*;

verus! {

/// One observable action on the bus: an opcode byte sent with the command
/// line active, a parameter byte sent with the data line active, a timed
/// settle delay, or a reset-pin transition.
#[derive(Clone, Copy, Debug, PartialEq, Eq, Structural)]
pub enum TxEvent {
    /// Opcode byte, command framing.
    Cmd(u8),
    /// Parameter byte, data framing.
    Byte(u8),
    /// Settle delay in microseconds.
    DelayUs(u32),
    /// Reset line driven high.
    ResetHigh,
    /// Reset line driven low.
    ResetLow,
}

/// Software reset.
pub const SWRESET: u8 = 0x01;
/// Sleep out.
pub const SLPOUT: u8 = 0x11;
/// Normal display mode on.
pub const NORON: u8 = 0x13;
/// Display inversion on.
pub const INVON: u8 = 0x21;
/// Display on.
pub const DISPON: u8 = 0x29;
/// Column address set.
pub const CASET: u8 = 0x2a;
/// Row address set.
pub const RASET: u8 = 0x2b;
/// Memory write.
pub const RAMWR: u8 = 0x2c;
/// Memory data access control (orientation).
pub const MADCTL: u8 = 0x36;
/// Vertical scroll start address.
pub const VSCSAD: u8 = 0x37;
/// Interface pixel format.
pub const COLMOD: u8 = 0x3a;

/// The data events carrying a slice of raw bytes, in order.
pub open spec fn byte_events(bytes: Seq<u8>) -> Seq<TxEvent> {
    bytes.map_values(|b: u8| TxEvent::Byte(b))
}

/// A 16-bit word as two data events, most significant byte first.
pub open spec fn data_word(w: u16) -> Seq<TxEvent> {
    seq![TxEvent::Byte((w >> 8) as u8), TxEvent::Byte((w & 0xff) as u8)]
}

/// The events of an address-window set: column range then row range, each a
/// command followed by two big-endian 16-bit words (start, end), all bounds
/// inclusive and already offset into device space.
pub open spec fn window_events(sx: u16, sy: u16, ex: u16, ey: u16) -> Seq<TxEvent> {
    seq![TxEvent::Cmd(CASET)] + data_word(sx) + data_word(ex) + seq![TxEvent::Cmd(RASET)]
        + data_word(sy) + data_word(ey)
}

/// `n` repetitions of one color word as data events.
pub open spec fn repeat_word(c: u16, n: nat) -> Seq<TxEvent>
    decreases n,
{
    if n == 0 {
        Seq::empty()
    } else {
        repeat_word(c, (n - 1) as nat) + data_word(c)
    }
}

/// The color words of a pixel sequence, streamed in order.
pub open spec fn word_stream(ws: Seq<u16>) -> Seq<TxEvent>
    decreases ws.len(),
{
    if ws.len() == 0 {
        Seq::empty()
    } else {
        word_stream(ws.drop_last()) + data_word(ws.last())
    }
}

/// A repeated word holds exactly `2 * n` data events: the two big-endian
/// bytes of the color, `n` times over.
pub proof fn lemma_repeat_word_bytes(c: u16, n: nat)
    ensures
        repeat_word(c, n).len() == 2 * n,
        forall|k: int|
            0 <= k < n ==> #[trigger] repeat_word(c, n).subrange(2 * k, 2 * k + 2)
                == data_word(c),
    decreases n,
{
    if n > 0 {
        lemma_repeat_word_bytes(c, (n - 1) as nat);
        let whole = repeat_word(c, n);
        let prev = repeat_word(c, (n - 1) as nat);
        assert forall|k: int| 0 <= k < n implies #[trigger] whole.subrange(2 * k, 2 * k + 2)
            == data_word(c) by {
            if k < n - 1 {
                assert(whole.subrange(2 * k, 2 * k + 2) =~= prev.subrange(2 * k, 2 * k + 2));
            } else {
                assert(whole.subrange(2 * k, 2 * k + 2) =~= data_word(c));
            }
        }
    }
}

/// The hard-reset pin sequence: high, low, high, each edge followed by a
/// settle delay of 10 microseconds so the controller's reset detector
/// registers it, with no bus traffic in between.
pub open spec fn reset_events() -> Seq<TxEvent> {
    seq![
        TxEvent::ResetHigh,
        TxEvent::DelayUs(10),
        TxEvent::ResetLow,
        TxEvent::DelayUs(10),
        TxEvent::ResetHigh,
        TxEvent::DelayUs(10),
    ]
}

/// The whole initialization sequence: the hard reset, then software reset,
/// sleep-out, 16-bit pixel format, orientation (the given mode byte),
/// inversion on, normal mode, display on, with the settle delays the
/// controller's timing requires.
pub open spec fn init_events(madctl: u8) -> Seq<TxEvent> {
    reset_events() + seq![
        TxEvent::Cmd(SWRESET),
        TxEvent::DelayUs(150000),
        TxEvent::Cmd(SLPOUT),
        TxEvent::DelayUs(10000),
        TxEvent::Cmd(COLMOD),
        TxEvent::Byte(0x55),
        TxEvent::Cmd(MADCTL),
        TxEvent::Byte(madctl),
        TxEvent::Cmd(INVON),
        TxEvent::Cmd(NORON),
        TxEvent::Cmd(DISPON),
        TxEvent::DelayUs(10000),
    ]
}

/// The whole byte stream of a single pixel write at logical `(x, y)` on a
/// panel with offset `(offx, offy)`: a one-point window, the RAM-write
/// opcode, and one color word.
pub open spec fn pixel_events(x: u16, y: u16, color: u16, offx: u16, offy: u16) -> Seq<TxEvent> {
    window_events((x + offx) as u16, (y + offy) as u16, (x + offx) as u16, (y + offy) as u16)
        + seq![TxEvent::Cmd(RAMWR)] + data_word(color)
}

/// The whole byte stream of a filled rectangle write: one window covering
/// the inclusive bounds, the RAM-write opcode, and one color word per pixel.
pub open spec fn rect_events(
    x0: u16,
    y0: u16,
    x1: u16,
    y1: u16,
    color: u16,
    offx: u16,
    offy: u16,
) -> Seq<TxEvent> {
    window_events((x0 + offx) as u16, (y0 + offy) as u16, (x1 + offx) as u16, (y1 + offy) as u16)
        + seq![TxEvent::Cmd(RAMWR)]
        + repeat_word(color, ((x1 - x0 + 1) * (y1 - y0 + 1)) as nat)
}

/// The byte streams of a sequence of single-pixel plots, one window reset
/// per point, concatenated in order.  Points are mathematical coordinates;
/// each is in pixel range when the stream describes a real drawing call.
pub open spec fn plot_stream(pts: Seq<(int, int)>, color: u16, offx: u16, offy: u16) -> Seq<
    TxEvent,
>
    decreases pts.len(),
{
    if pts.len() == 0 {
        Seq::empty()
    } else {
        plot_stream(pts.drop_last(), color, offx, offy)
            + pixel_events(pts.last().0 as u16, pts.last().1 as u16, color, offx, offy)
    }
}

/// Appending one point to a plot sequence appends exactly that pixel's
/// events to its stream.
pub proof fn lemma_plot_stream_push(
    pts: Seq<(int, int)>,
    p: (int, int),
    color: u16,
    offx: u16,
    offy: u16,
)
    ensures
        plot_stream(pts.push(p), color, offx, offy) == plot_stream(pts, color, offx, offy)
            + pixel_events(p.0 as u16, p.1 as u16, color, offx, offy),
{
    assert(pts.push(p).drop_last() =~= pts);
    assert(pts.push(p).last() == p);
}

/// Concatenating two plot sequences concatenates their streams.
pub proof fn lemma_plot_stream_append(
    a: Seq<(int, int)>,
    b: Seq<(int, int)>,
    color: u16,
    offx: u16,
    offy: u16,
)
    ensures
        plot_stream(a + b, color, offx, offy) == plot_stream(a, color, offx, offy) + plot_stream(
            b,
            color,
            offx,
            offy,
        ),
    decreases b.len(),
{
    if b.len() == 0 {
        assert(a + b =~= a);
        assert(plot_stream(a + b, color, offx, offy) =~= plot_stream(a, color, offx, offy)
            + plot_stream(b, color, offx, offy));
    } else {
        assert((a + b).drop_last() =~= a + b.drop_last());
        lemma_plot_stream_append(a, b.drop_last(), color, offx, offy);
        assert((a + b).last() == b.last());
        assert(plot_stream(a + b, color, offx, offy) =~= plot_stream(a, color, offx, offy)
            + plot_stream(b, color, offx, offy));
    }
}

/// A single pixel write is byte-for-byte a filled rectangle of one point:
/// same window, same RAM-write opcode, same single color word.
pub proof fn lemma_pixel_is_unit_rect(x: u16, y: u16, color: u16, offx: u16, offy: u16)
    ensures
        pixel_events(x, y, color, offx, offy) == rect_events(x, y, x, y, color, offx, offy),
{
    assert(((x - x + 1) * (y - y + 1)) as nat == 1) by (nonlinear_arith);
    assert(repeat_word(color, 0) == Seq::<TxEvent>::empty());
    assert(repeat_word(color, 1) =~= data_word(color));
    assert(pixel_events(x, y, color, offx, offy) =~= rect_events(
        x,
        y,
        x,
        y,
        color,
        offx,
        offy,
    ));
}

} // verus!
