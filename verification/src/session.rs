//! The controller session: exclusive owner of the transport, the panel
//! geometry and offset, and the logical orientation.  It provides the two
//! atomic primitives every higher layer is built from (issue a command
//! byte, issue data bytes), the hard-reset and initialization sequences,
//! and the address-window manager.

use vstd::prelude::*;

use crate::protocol::byte_events;
use crate::protocol::data_word;
use crate::protocol::init_events;
use crate::protocol::reset_events;
use crate::protocol::window_events;
use crate::protocol::TxEvent;
use crate::protocol::CASET;
use crate::protocol::COLMOD;
use crate::protocol::DISPON;
use crate::protocol::INVON;
use crate::protocol::MADCTL;
use crate::protocol::NORON;
use crate::protocol::RASET;
use crate::protocol::SLPOUT;
use crate::protocol::SWRESET;
use crate::protocol::VSCSAD;
use crate::transport::Transport;

verus! {

/// A failure of a driver call.
///
/// Bus and pin failures surface the transport's own failures and are never
/// retried: the panel has no acknowledgement channel, so the caller must
/// re-run `init` or abandon the session.  Invalid input is detected before
/// any bus traffic is generated.
#[derive(Clone, Copy, Debug, PartialEq, Eq, Structural)]
pub enum Error {
    /// A command/data bus write failed.
    DisplayError,
    /// A reset-pin write failed.
    Pin,
    /// The call's arguments are inconsistent (e.g. a blit buffer whose
    /// length does not match the window); nothing was sent.
    InvalidInput,
}

/// One of the four fixed panel rotations, applied as a single mode byte.
#[derive(Clone, Copy, Debug, PartialEq, Eq, Structural)]
pub enum Orientation {
    /// No row/column swap, no mirroring.
    Portrait,
    /// Row/column swap with horizontal mirror.
    Landscape,
    /// Portrait rotated by 180 degrees.
    PortraitSwapped,
    /// Landscape rotated by 180 degrees.
    LandscapeSwapped,
}

/// The fixed mode byte of each orientation.
pub open spec fn orientation_bits(o: Orientation) -> u8 {
    match o {
        Orientation::Portrait => 0x00,
        Orientation::Landscape => 0x60,
        Orientation::PortraitSwapped => 0xc0,
        Orientation::LandscapeSwapped => 0xa0,
    }
}

/// The fixed mode byte of each orientation.
pub fn orientation_byte(o: Orientation) -> (r: u8)
    ensures
        r == orientation_bits(o),
{
    match o {
        Orientation::Portrait => 0x00,
        Orientation::Landscape => 0x60,
        Orientation::PortraitSwapped => 0xc0,
        Orientation::LandscapeSwapped => 0xa0,
    }
}

/// A driver session over a transport `T`.
///
/// The session owns the transport exclusively; `size_x`/`size_y` record the
/// visible resolution, `off_x`/`off_y` the panel's fixed offset to the
/// controller's true origin, added to every coordinate that reaches the
/// address registers.
pub struct ST7789<T: Transport> {
    /// The owned bus transport.
    pub bus: T,
    /// Visible horizontal resolution in pixels.
    pub size_x: u16,
    /// Visible vertical resolution in pixels.
    pub size_y: u16,
    /// Horizontal offset of the visible area in controller device space.
    pub off_x: u16,
    /// Vertical offset of the visible area in controller device space.
    pub off_y: u16,
    /// The current logical orientation; tracked, never read back.
    pub orientation: Orientation,
}

impl<T: Transport> ST7789<T> {
    /// The geometry fields, bundled so contracts can say in one clause that
    /// a call leaves them untouched.
    pub open spec fn geom(&self) -> (u16, u16, u16, u16) {
        (self.size_x, self.size_y, self.off_x, self.off_y)
    }

    /// Geometry and orientation together: everything but the transport.
    pub open spec fn cfg(&self) -> ((u16, u16, u16, u16), Orientation) {
        (self.geom(), self.orientation)
    }

    /// The transport's log.
    pub open spec fn events(&self) -> Seq<TxEvent> {
        self.bus.events()
    }

    /// Creates a new driver session owning `bus`, with the given visible
    /// resolution and panel offset, in the portrait orientation.
    pub fn new(bus: T, size_x: u16, size_y: u16, off_x: u16, off_y: u16) -> (r: Self)
        ensures
            r.bus == bus,
            r.geom() == (size_x, size_y, off_x, off_y),
            r.orientation == Orientation::Portrait,
    {
        ST7789 { bus, size_x, size_y, off_x, off_y, orientation: Orientation::Portrait }
    }

    /// Releases the transport back to the caller, consuming the session.
    pub fn release(self) -> (r: T)
        ensures
            r == self.bus,
    {
        self.bus
    }

    /// Sends one opcode byte with the command line active.
    pub(crate) fn write_command(&mut self, c: u8) -> (r: Result<(), Error>)
        ensures
            final(self).cfg() == old(self).cfg(),
            r is Ok ==> final(self).events() == old(self).events().push(TxEvent::Cmd(c)),
            r is Err ==> r == Err::<(), Error>(Error::DisplayError),
    {
        match self.bus.send_command(c) {
            Ok(()) => Ok(()),
            Err(_) => Err(Error::DisplayError),
        }
    }

    /// Sends parameter bytes with the data line active.
    pub(crate) fn write_data(&mut self, data: &[u8]) -> (r: Result<(), Error>)
        ensures
            final(self).cfg() == old(self).cfg(),
            r is Ok ==> final(self).events() == old(self).events() + byte_events(data@),
            r is Err ==> r == Err::<(), Error>(Error::DisplayError),
    {
        match self.bus.send_data(data) {
            Ok(()) => Ok(()),
            Err(_) => Err(Error::DisplayError),
        }
    }

    /// Sends one parameter byte with the data line active.
    pub(crate) fn write_byte(&mut self, b: u8) -> (r: Result<(), Error>)
        ensures
            final(self).cfg() == old(self).cfg(),
            r is Ok ==> final(self).events() == old(self).events().push(TxEvent::Byte(b)),
            r is Err ==> r == Err::<(), Error>(Error::DisplayError),
    {
        let mut v: Vec<u8> = Vec::new();
        v.push(b);
        let r = self.write_data(v.as_slice());
        proof {
            assert(byte_events(v@) =~= seq![TxEvent::Byte(b)]);
            if r is Ok {
                assert(old(self).events() + byte_events(v@) =~= old(self).events().push(
                    TxEvent::Byte(b),
                ));
            }
        }
        r
    }

    /// Sends one 16-bit word as two parameter bytes, most significant first.
    pub(crate) fn write_word(&mut self, w: u16) -> (r: Result<(), Error>)
        ensures
            final(self).cfg() == old(self).cfg(),
            r is Ok ==> final(self).events() == old(self).events() + data_word(w),
            r is Err ==> r == Err::<(), Error>(Error::DisplayError),
    {
        proof {
            assert((w >> 8) <= 0xff && (w & 0xff) <= 0xff) by (bit_vector);
        }
        let mut v: Vec<u8> = Vec::new();
        v.push((w >> 8) as u8);
        v.push((w & 0xff) as u8);
        let r = self.write_data(v.as_slice());
        proof {
            assert(byte_events(v@) =~= data_word(w));
        }
        r
    }

    /// Performs a hard reset: drives the reset line high, low, high, each
    /// transition followed by a 10 microsecond settle delay, with no bus
    /// traffic interleaved.  Fails with the pin error if any pin write
    /// fails.
    pub fn hard_reset(&mut self) -> (r: Result<(), Error>)
        ensures
            final(self).cfg() == old(self).cfg(),
            r is Ok ==> final(self).events() == old(self).events() + reset_events(),
            r is Err ==> r == Err::<(), Error>(Error::Pin),
    {
        match self.bus.set_reset_high() {
            Ok(()) => (),
            Err(_) => {
                return Err(Error::Pin);
            },
        }
        self.bus.delay_us(10);
        match self.bus.set_reset_low() {
            Ok(()) => (),
            Err(_) => {
                return Err(Error::Pin);
            },
        }
        self.bus.delay_us(10);
        match self.bus.set_reset_high() {
            Ok(()) => (),
            Err(_) => {
                return Err(Error::Pin);
            },
        }
        self.bus.delay_us(10);
        proof {
            assert(self.events() =~= old(self).events() + reset_events());
        }
        Ok(())
    }

    /// Brings the panel from power-on state to displaying: hard reset, then
    /// the fixed command sequence (software reset, sleep-out, 16-bit pixel
    /// format, the current orientation's mode byte, inversion on, normal
    /// mode, display on) with the required settle delays.  Linear and
    /// non-retryable: the first failure aborts and leaves the display state
    /// unknown; the caller must re-run the whole sequence.
    pub fn init(&mut self) -> (r: Result<(), Error>)
        ensures
            final(self).cfg() == old(self).cfg(),
            r is Ok ==> final(self).events() == old(self).events() + init_events(
                orientation_bits(old(self).orientation),
            ),
            r is Err ==> r == Err::<(), Error>(Error::DisplayError) || r == Err::<(), Error>(
                Error::Pin,
            ),
    {
        self.hard_reset()?;
        self.write_command(SWRESET)?;
        self.bus.delay_us(150000);
        self.write_command(SLPOUT)?;
        self.bus.delay_us(10000);
        self.write_command(COLMOD)?;
        self.write_byte(0x55)?;
        self.write_command(MADCTL)?;
        self.write_byte(orientation_byte(self.orientation))?;
        self.write_command(INVON)?;
        self.write_command(NORON)?;
        self.write_command(DISPON)?;
        self.bus.delay_us(10000);
        proof {
            assert(self.events() =~= old(self).events() + init_events(
                orientation_bits(old(self).orientation),
            ));
        }
        Ok(())
    }

    /// Applies one of the four fixed orientations: a single mode-control
    /// command carrying the orientation's byte.  Idempotent; on success the
    /// session records the new orientation.
    pub fn set_orientation(&mut self, o: Orientation) -> (r: Result<(), Error>)
        ensures
            final(self).geom() == old(self).geom(),
            r is Ok ==> final(self).orientation == o && final(self).events() == old(
                self,
            ).events() + seq![TxEvent::Cmd(MADCTL), TxEvent::Byte(orientation_bits(o))],
            r is Err ==> r == Err::<(), Error>(Error::DisplayError) && final(self).orientation
                == old(self).orientation,
    {
        self.write_command(MADCTL)?;
        self.write_byte(orientation_byte(o))?;
        self.orientation = o;
        proof {
            assert(self.events() =~= old(self).events() + seq![
                TxEvent::Cmd(MADCTL),
                TxEvent::Byte(orientation_bits(o)),
            ]);
        }
        Ok(())
    }

    /// Sets the vertical scroll offset, shifting the displayed picture.
    pub fn set_scroll_offset(&mut self, offset: u16) -> (r: Result<(), Error>)
        ensures
            final(self).cfg() == old(self).cfg(),
            r is Ok ==> final(self).events() == old(self).events() + (seq![
                TxEvent::Cmd(VSCSAD),
            ] + data_word(offset)),
            r is Err ==> r == Err::<(), Error>(Error::DisplayError),
    {
        self.write_command(VSCSAD)?;
        let r = self.write_word(offset);
        proof {
            if r is Ok {
                assert(self.events() =~= old(self).events() + (seq![
                    TxEvent::Cmd(VSCSAD),
                ] + data_word(offset)));
            }
        }
        r
    }

    /// Sets the address window to the inclusive rectangle `(sx, sy)` ..
    /// `(ex, ey)` in logical coordinates: adds the panel offset to each
    /// bound and issues the column-address and row-address registers, each
    /// as two big-endian 16-bit words (start, end).  Re-issued before every
    /// pixel-region write; the controller's retained window is never relied
    /// on.  Inverted bounds are a caller bug: they are excluded by
    /// precondition rather than silently swapped.
    pub fn set_address_window(&mut self, sx: u16, sy: u16, ex: u16, ey: u16) -> (r: Result<
        (),
        Error,
    >)
        requires
            sx <= ex,
            sy <= ey,
            ex + old(self).off_x <= u16::MAX,
            ey + old(self).off_y <= u16::MAX,
        ensures
            final(self).cfg() == old(self).cfg(),
            r is Ok ==> final(self).events() == old(self).events() + window_events(
                (sx + old(self).off_x) as u16,
                (sy + old(self).off_y) as u16,
                (ex + old(self).off_x) as u16,
                (ey + old(self).off_y) as u16,
            ),
            r is Err ==> r == Err::<(), Error>(Error::DisplayError),
    {
        let sx0 = self.off_x + sx;
        let sy0 = self.off_y + sy;
        let ex0 = self.off_x + ex;
        let ey0 = self.off_y + ey;
        self.write_command(CASET)?;
        self.write_word(sx0)?;
        self.write_word(ex0)?;
        self.write_command(RASET)?;
        self.write_word(sy0)?;
        let r = self.write_word(ey0);
        proof {
            if r is Ok {
                assert(self.events() =~= old(self).events() + window_events(sx0, sy0, ex0, ey0));
            }
        }
        r
    }
}

} // verus!
