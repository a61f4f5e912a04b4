//! The pixel streamer: writes one or many 16-bit color words into the
//! address window, immediately after the RAM-write opcode, in big-endian
//! byte order.  Multi-word writes go through a fixed-size transfer buffer
//! that is flushed when full and at the end — a pure throughput strategy
//! that never changes the bytes that reach the wire.

use vstd::prelude::*;

use crate::protocol::byte_events;
use crate::protocol::data_word;
use crate::protocol::pixel_events;
use crate::protocol::window_events;
use crate::protocol::word_stream;
use crate::protocol::TxEvent;
use crate::protocol::RAMWR;
use crate::session::Error;
use crate::session::ST7789;
use crate::transport::Transport;

verus! {

/// The transfer buffer holds at most this many bytes before it is flushed.
pub const XFER_BUF_BYTES: usize = 128;

impl<T: Transport> ST7789<T> {
    /// Writes one pixel: a one-point address window, the RAM-write opcode,
    /// and a single color word.
    pub fn set_pixel(&mut self, x: u16, y: u16, color: u16) -> (r: Result<(), Error>)
        requires
            x + old(self).off_x <= u16::MAX,
            y + old(self).off_y <= u16::MAX,
        ensures
            final(self).cfg() == old(self).cfg(),
            r is Ok ==> final(self).events() == old(self).events() + pixel_events(
                x,
                y,
                color,
                old(self).off_x,
                old(self).off_y,
            ),
            r is Err ==> r == Err::<(), Error>(Error::DisplayError),
    {
        self.set_address_window(x, y, x, y)?;
        self.write_command(RAMWR)?;
        let r = self.write_word(color);
        proof {
            if r is Ok {
                assert(self.events() =~= old(self).events() + pixel_events(
                    x,
                    y,
                    color,
                    old(self).off_x,
                    old(self).off_y,
                ));
            }
        }
        r
    }

    /// Streams the given color words into the inclusive rectangle `(sx,
    /// sy)` .. `(ex, ey)`: one window set, one RAM-write opcode, then every
    /// word of `colors`, in order, big-endian.
    ///
    /// The number of words the window expects is the caller's
    /// responsibility: supplying fewer or more than the window's area
    /// leaves pixels stale or wraps the window, at the protocol level; the
    /// driver streams exactly what it is given.
    pub fn set_pixels(&mut self, sx: u16, sy: u16, ex: u16, ey: u16, colors: &[u16]) -> (r: Result<
        (),
        Error,
    >)
        requires
            sx <= ex,
            sy <= ey,
            ex + old(self).off_x <= u16::MAX,
            ey + old(self).off_y <= u16::MAX,
        ensures
            final(self).cfg() == old(self).cfg(),
            r is Ok ==> final(self).events() == old(self).events() + (window_events(
                (sx + old(self).off_x) as u16,
                (sy + old(self).off_y) as u16,
                (ex + old(self).off_x) as u16,
                (ey + old(self).off_y) as u16,
            ) + seq![TxEvent::Cmd(RAMWR)] + word_stream(colors@)),
            r is Err ==> r == Err::<(), Error>(Error::DisplayError),
    {
        self.set_address_window(sx, sy, ex, ey)?;
        self.write_command(RAMWR)?;
        let ghost base = self.events();
        let mut buf: Vec<u8> = Vec::new();
        let mut i: usize = 0;
        while i < colors.len()
            invariant
                i <= colors.len(),
                buf@.len() <= XFER_BUF_BYTES,
                self.cfg() == old(self).cfg(),
                self.events() + byte_events(buf@) == base + word_stream(colors@.take(i as int)),
            decreases colors.len() - i,
        {
            let w = colors[i];
            let ghost buf0 = buf@;
            proof {
                assert((w >> 8) <= 0xff && (w & 0xff) <= 0xff) by (bit_vector);
            }
            buf.push((w >> 8) as u8);
            buf.push((w & 0xff) as u8);
            proof {
                let pre = colors@.take(i as int);
                let cur = colors@.take(i as int + 1);
                assert(cur.drop_last() =~= pre);
                assert(cur.last() == colors@[i as int]);
                assert(word_stream(cur) == word_stream(pre) + data_word(w));
                assert(byte_events(buf@) =~= byte_events(buf0) + data_word(w));
                assert(self.events() + byte_events(buf@) =~= (self.events() + byte_events(buf0))
                    + data_word(w));
                assert((base + word_stream(pre)) + data_word(w) =~= base + (word_stream(pre)
                    + data_word(w)));
                assert(self.events() + byte_events(buf@) == base + word_stream(cur));
            }
            i = i + 1;
            if buf.len() >= XFER_BUF_BYTES {
                let ghost pre = self.events();
                match self.write_data(buf.as_slice()) {
                    Ok(()) => (),
                    Err(e) => {
                        return Err(e);
                    },
                }
                buf.clear();
                proof {
                    assert(byte_events(buf@) =~= Seq::<TxEvent>::empty());
                    assert(self.events() + byte_events(buf@) =~= base + word_stream(
                        colors@.take(i as int),
                    ));
                }
            }
        }
        if buf.len() > 0 {
            match self.write_data(buf.as_slice()) {
                Ok(()) => (),
                Err(e) => {
                    return Err(e);
                },
            }
        }
        proof {
            assert(colors@.take(colors@.len() as int) =~= colors@);
            assert(self.events() =~= old(self).events() + (window_events(
                (sx + old(self).off_x) as u16,
                (sy + old(self).off_y) as u16,
                (ex + old(self).off_x) as u16,
                (ey + old(self).off_y) as u16,
            ) + seq![TxEvent::Cmd(RAMWR)] + word_stream(colors@)));
        }
        Ok(())
    }

    /// Blits raw, pre-encoded big-endian 16-bit-per-pixel data into the
    /// `dx` by `dy` window anchored at `(sx, sy)`.  The high-throughput
    /// path: the buffer goes to the bus as it stands.
    ///
    /// Fails with [`Error::InvalidInput`], before any bus traffic, if the
    /// buffer length is not `dx * dy * 2` bytes or the region is empty.
    pub fn blit_pixels(&mut self, sx: u16, sy: u16, dx: u16, dy: u16, data: &[u8]) -> (r: Result<
        (),
        Error,
    >)
        requires
            dx > 0 ==> sx + dx - 1 + old(self).off_x <= u16::MAX,
            dy > 0 ==> sy + dy - 1 + old(self).off_y <= u16::MAX,
        ensures
            final(self).cfg() == old(self).cfg(),
            r == Err::<(), Error>(Error::InvalidInput) <==> (data@.len() != dx * dy * 2 || dx == 0
                || dy == 0),
            r == Err::<(), Error>(Error::InvalidInput) ==> final(self).events() == old(
                self,
            ).events(),
            r is Ok ==> final(self).events() == old(self).events() + (window_events(
                (sx + old(self).off_x) as u16,
                (sy + old(self).off_y) as u16,
                (sx + dx - 1 + old(self).off_x) as u16,
                (sy + dy - 1 + old(self).off_y) as u16,
            ) + seq![TxEvent::Cmd(RAMWR)] + byte_events(data@)),
            r is Err && r != Err::<(), Error>(Error::InvalidInput) ==> r == Err::<(), Error>(
                Error::DisplayError,
            ),
    {
        proof {
            assert((dx as int) * (dy as int) <= 0xffff * 0xffff) by (nonlinear_arith)
                requires
                    dx <= 0xffff,
                    dy <= 0xffff,
            ;
        }
        let need: u64 = (dx as u64) * (dy as u64) * 2;
        if (data.len() as u64) != need || dx == 0 || dy == 0 {
            return Err(Error::InvalidInput);
        }
        self.set_address_window(sx, sy, sx + (dx - 1), sy + (dy - 1))?;
        self.write_command(RAMWR)?;
        let r = self.write_data(data);
        proof {
            if r is Ok {
                assert(self.events() =~= old(self).events() + (window_events(
                    (sx + old(self).off_x) as u16,
                    (sy + old(self).off_y) as u16,
                    (sx + dx - 1 + old(self).off_x) as u16,
                    (sy + dy - 1 + old(self).off_y) as u16,
                ) + seq![TxEvent::Cmd(RAMWR)] + byte_events(data@)));
            }
        }
        r
    }
}

} // verus!
