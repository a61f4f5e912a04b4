//! The rasterizer: shape primitives written purely in terms of the address
//! window manager and the pixel streamer.  It has no bus knowledge; every
//! primitive's contract names the exact event stream it appends.

use vstd::prelude::*;

use crate::circle::chord_h;
use crate::circle::circle_fill_events;
use crate::circle::circle_points;
use crate::circle::circle_points_upto;
use crate::circle::isqrt;
use crate::circle::lemma_sqrt_floor_bounds;
use crate::circle::octant_limit_from;
use crate::circle::octant_points;
use crate::geometry::abs_i;
use crate::glyph::bit_set;
use crate::glyph::glyph_col_points;
use crate::glyph::glyph_points;
use crate::geometry::lemma_near_div_range;
use crate::geometry::line_len;
use crate::geometry::line_point;
use crate::geometry::line_points;
use crate::geometry::near_div;
use crate::geometry::sgn;
use crate::protocol::byte_events;
use crate::protocol::data_word;
use crate::protocol::lemma_plot_stream_append;
use crate::protocol::lemma_plot_stream_push;
use crate::protocol::pixel_events;
use crate::protocol::plot_stream;
use crate::protocol::rect_events;
use crate::protocol::repeat_word;
use crate::protocol::TxEvent;
use crate::protocol::RAMWR;
use crate::session::Error;
use crate::session::ST7789;
use crate::streamer::XFER_BUF_BYTES;
use crate::transport::Transport;

verus! {

impl<T: Transport> ST7789<T> {
    /// Fills the inclusive rectangle `(x0, y0)` .. `(x1, y1)`: one window
    /// set, one RAM-write opcode, then one color word per pixel of the
    /// rectangle — `(x1 - x0 + 1) * (y1 - y0 + 1)` repetitions, streamed
    /// through the transfer buffer.
    pub fn draw_rect(&mut self, x0: u16, y0: u16, x1: u16, y1: u16, color: u16) -> (r: Result<
        (),
        Error,
    >)
        requires
            x0 <= x1,
            y0 <= y1,
            x1 + old(self).off_x <= u16::MAX,
            y1 + old(self).off_y <= u16::MAX,
        ensures
            final(self).cfg() == old(self).cfg(),
            r is Ok ==> final(self).events() == old(self).events() + rect_events(
                x0,
                y0,
                x1,
                y1,
                color,
                old(self).off_x,
                old(self).off_y,
            ),
            r is Err ==> r == Err::<(), Error>(Error::DisplayError),
    {
        self.set_address_window(x0, y0, x1, y1)?;
        self.write_command(RAMWR)?;
        let ghost base = self.events();
        let w: u32 = (x1 - x0) as u32 + 1;
        let h: u32 = (y1 - y0) as u32 + 1;
        proof {
            assert((w as int) * (h as int) <= 0x10000 * 0x10000) by (nonlinear_arith)
                requires
                    w <= 0x10000,
                    h <= 0x10000,
            ;
        }
        let n: u64 = (w as u64) * (h as u64);
        let mut buf: Vec<u8> = Vec::new();
        let mut i: u64 = 0;
        while i < n
            invariant
                i <= n,
                buf@.len() <= XFER_BUF_BYTES,
                self.cfg() == old(self).cfg(),
                self.events() + byte_events(buf@) == base + repeat_word(color, i as nat),
            decreases n - i,
        {
            let ghost buf0 = buf@;
            proof {
                assert((color >> 8) <= 0xff && (color & 0xff) <= 0xff) by (bit_vector);
            }
            buf.push((color >> 8) as u8);
            buf.push((color & 0xff) as u8);
            proof {
                assert(byte_events(buf@) =~= byte_events(buf0) + data_word(color));
                assert(self.events() + byte_events(buf@) =~= (self.events() + byte_events(buf0))
                    + data_word(color));
                assert((base + repeat_word(color, i as nat)) + data_word(color) =~= base + (
                repeat_word(color, i as nat) + data_word(color)));
                assert(self.events() + byte_events(buf@) == base + repeat_word(
                    color,
                    (i + 1) as nat,
                ));
            }
            i = i + 1;
            if buf.len() >= XFER_BUF_BYTES {
                match self.write_data(buf.as_slice()) {
                    Ok(()) => (),
                    Err(e) => {
                        return Err(e);
                    },
                }
                buf.clear();
                proof {
                    assert(byte_events(buf@) =~= Seq::<TxEvent>::empty());
                    assert(self.events() + byte_events(buf@) =~= base + repeat_word(
                        color,
                        i as nat,
                    ));
                }
            }
        }
        if buf.len() > 0 {
            match self.write_data(buf.as_slice()) {
                Ok(()) => (),
                Err(e) => {
                    return Err(e);
                },
            }
        }
        proof {
            assert(n as nat == ((x1 - x0 + 1) * (y1 - y0 + 1)) as nat) by (nonlinear_arith)
                requires
                    n == (x1 - x0 + 1) * (y1 - y0 + 1),
            ;
            assert(self.events() =~= old(self).events() + rect_events(
                x0,
                y0,
                x1,
                y1,
                color,
                old(self).off_x,
                old(self).off_y,
            ));
        }
        Ok(())
    }

    /// Draws the horizontal run from `(x0, y)` to `(x1, y)` inclusive: a
    /// rectangle of thickness one, a single window set rather than
    /// per-pixel windows.
    pub fn draw_horizontal_line(&mut self, x0: u16, x1: u16, y: u16, color: u16) -> (r: Result<
        (),
        Error,
    >)
        requires
            x0 <= x1,
            x1 + old(self).off_x <= u16::MAX,
            y + old(self).off_y <= u16::MAX,
        ensures
            final(self).cfg() == old(self).cfg(),
            r is Ok ==> final(self).events() == old(self).events() + rect_events(
                x0,
                y,
                x1,
                y,
                color,
                old(self).off_x,
                old(self).off_y,
            ),
            r is Err ==> r == Err::<(), Error>(Error::DisplayError),
    {
        self.draw_rect(x0, y, x1, y, color)
    }

    /// Draws the vertical run from `(x, y0)` to `(x, y1)` inclusive: a
    /// rectangle of thickness one, a single window set rather than
    /// per-pixel windows.
    pub fn draw_vertical_line(&mut self, x: u16, y0: u16, y1: u16, color: u16) -> (r: Result<
        (),
        Error,
    >)
        requires
            y0 <= y1,
            x + old(self).off_x <= u16::MAX,
            y1 + old(self).off_y <= u16::MAX,
        ensures
            final(self).cfg() == old(self).cfg(),
            r is Ok ==> final(self).events() == old(self).events() + rect_events(
                x,
                y0,
                x,
                y1,
                color,
                old(self).off_x,
                old(self).off_y,
            ),
            r is Err ==> r == Err::<(), Error>(Error::DisplayError),
    {
        self.draw_rect(x, y0, x, y1, color)
    }

    /// Draws the segment from `(x0, y0)` to `(x1, y1)`.
    ///
    /// An axis-aligned segment becomes the horizontal or vertical run over
    /// the same pixels: a single window and a run of color words.  Any
    /// other segment is walked one pixel per unit step along its dominant
    /// axis (see [`line_points`]), each point plotted with its own window
    /// — at most one pixel per station, never a gap of more than one unit
    /// on the other axis.  The slope ratio is rounded to the nearest
    /// integer, ties away from zero, consistently for all segments.
    #[verifier::loop_isolation(false)]
    #[verifier::rlimit(100)]
    pub fn draw_line(&mut self, x0: u16, y0: u16, x1: u16, y1: u16, color: u16) -> (r: Result<
        (),
        Error,
    >)
        requires
            x0 + old(self).off_x <= u16::MAX,
            x1 + old(self).off_x <= u16::MAX,
            y0 + old(self).off_y <= u16::MAX,
            y1 + old(self).off_y <= u16::MAX,
        ensures
            final(self).cfg() == old(self).cfg(),
            r is Ok && y0 == y1 ==> final(self).events() == old(self).events() + rect_events(
                (if x0 <= x1 {
                    x0
                } else {
                    x1
                }),
                y0,
                (if x0 <= x1 {
                    x1
                } else {
                    x0
                }),
                y0,
                color,
                old(self).off_x,
                old(self).off_y,
            ),
            r is Ok && y0 != y1 && x0 == x1 ==> final(self).events() == old(self).events()
                + rect_events(
                x0,
                (if y0 <= y1 {
                    y0
                } else {
                    y1
                }),
                x0,
                (if y0 <= y1 {
                    y1
                } else {
                    y0
                }),
                color,
                old(self).off_x,
                old(self).off_y,
            ),
            r is Ok && y0 != y1 && x0 != x1 ==> final(self).events() == old(self).events()
                + plot_stream(
                line_points(x0 as int, y0 as int, x1 as int, y1 as int),
                color,
                old(self).off_x,
                old(self).off_y,
            ),
            r is Err ==> r == Err::<(), Error>(Error::DisplayError),
    {
        if y0 == y1 {
            if x0 <= x1 {
                return self.draw_horizontal_line(x0, x1, y0, color);
            } else {
                return self.draw_horizontal_line(x1, x0, y0, color);
            }
        }
        if x0 == x1 {
            if y0 <= y1 {
                return self.draw_vertical_line(x0, y0, y1, color);
            } else {
                return self.draw_vertical_line(x0, y1, y0, color);
            }
        }
        let adx: u16 = if x1 >= x0 {
            x1 - x0
        } else {
            x0 - x1
        };
        let ady: u16 = if y1 >= y0 {
            y1 - y0
        } else {
            y0 - y1
        };
        let ghost pts = line_points(x0 as int, y0 as int, x1 as int, y1 as int);
        let ghost base = self.events();
        proof {
            assert(abs_i(x1 as int - x0 as int) == adx as int);
            assert(abs_i(y1 as int - y0 as int) == ady as int);
        }
        if ady <= adx {
            let mut k: u32 = 0;
            while k <= adx as u32
                invariant
                    k <= adx as u32 + 1,
                    self.cfg() == old(self).cfg(),
                    self.events() == base + plot_stream(
                        pts.take(k as int),
                        color,
                        old(self).off_x,
                        old(self).off_y,
                    ),
                decreases adx as int + 1 - k as int,
            {
                proof {
                    assert((ady as int) * (k as int) <= 0xffff * 0x10000) by (nonlinear_arith)
                        requires
                            ady <= 0xffff,
                            k <= 0x10000,
                    ;
                }
                let num: u64 = (ady as u64) * (k as u64);
                proof {
                    lemma_near_div_range(ady as int, adx as int, k as int);
                }
                let den: u64 = adx as u64;
                let rq64: u64 = (2 * num + den) / (2 * den);
                let rq: u16 = rq64 as u16;
                proof {
                    assert(rq as int == near_div(ady as int * k as int, adx as int));
                }
                let xx: u16 = if x1 >= x0 {
                    x0 + (k as u16)
                } else {
                    x0 - (k as u16)
                };
                let yy: u16 = if y1 >= y0 {
                    y0 + rq
                } else {
                    y0 - rq
                };
                proof {
                    if x1 >= x0 {
                        assert(sgn(x1 as int - x0 as int) == 1);
                        assert(k as int * sgn(x1 as int - x0 as int) == k as int)
                            by (nonlinear_arith)
                            requires
                                sgn(x1 as int - x0 as int) == 1,
                        ;
                    } else {
                        assert(sgn(x1 as int - x0 as int) == -1);
                        assert(k as int * sgn(x1 as int - x0 as int) == -(k as int))
                            by (nonlinear_arith)
                            requires
                                sgn(x1 as int - x0 as int) == -1,
                        ;
                    }
                    if y1 >= y0 {
                        assert(sgn(y1 as int - y0 as int) == 1);
                        assert(sgn(y1 as int - y0 as int) * near_div(
                            ady as int * k as int,
                            adx as int,
                        ) == near_div(ady as int * k as int, adx as int)) by (nonlinear_arith)
                            requires
                                sgn(y1 as int - y0 as int) == 1,
                        ;
                    } else {
                        assert(sgn(y1 as int - y0 as int) == -1);
                        assert(sgn(y1 as int - y0 as int) * near_div(
                            ady as int * k as int,
                            adx as int,
                        ) == -near_div(ady as int * k as int, adx as int)) by (nonlinear_arith)
                            requires
                                sgn(y1 as int - y0 as int) == -1,
                        ;
                    }
                    assert((xx as int, yy as int) == line_point(
                        x0 as int,
                        y0 as int,
                        x1 as int,
                        y1 as int,
                        k as int,
                    ));
                }
                match self.set_pixel(xx, yy, color) {
                    Ok(()) => (),
                    Err(e) => {
                        return Err(e);
                    },
                }
                proof {
                    let cur = pts.take(k as int + 1);
                    assert(cur.drop_last() =~= pts.take(k as int));
                    assert(cur.last() == (xx as int, yy as int));
                    assert((base + plot_stream(pts.take(k as int), color, old(self).off_x, old(
                        self,
                    ).off_y)) + pixel_events(xx, yy, color, old(self).off_x, old(self).off_y) =~=
                    base + plot_stream(cur, color, old(self).off_x, old(self).off_y));
                }
                k = k + 1;
            }
            proof {
                assert(pts.take(pts.len() as int) =~= pts);
            }
            Ok(())
        } else {
            let mut k: u32 = 0;
            while k <= ady as u32
                invariant
                    k <= ady as u32 + 1,
                    self.cfg() == old(self).cfg(),
                    self.events() == base + plot_stream(
                        pts.take(k as int),
                        color,
                        old(self).off_x,
                        old(self).off_y,
                    ),
                decreases ady as int + 1 - k as int,
            {
                proof {
                    assert((adx as int) * (k as int) <= 0xffff * 0x10000) by (nonlinear_arith)
                        requires
                            adx <= 0xffff,
                            k <= 0x10000,
                    ;
                }
                let num: u64 = (adx as u64) * (k as u64);
                proof {
                    lemma_near_div_range(adx as int, ady as int, k as int);
                }
                let den: u64 = ady as u64;
                let rq64: u64 = (2 * num + den) / (2 * den);
                let rq: u16 = rq64 as u16;
                proof {
                    assert(rq as int == near_div(adx as int * k as int, ady as int));
                }
                let yy: u16 = if y1 >= y0 {
                    y0 + (k as u16)
                } else {
                    y0 - (k as u16)
                };
                let xx: u16 = if x1 >= x0 {
                    x0 + rq
                } else {
                    x0 - rq
                };
                proof {
                    if y1 >= y0 {
                        assert(sgn(y1 as int - y0 as int) == 1);
                        assert(k as int * sgn(y1 as int - y0 as int) == k as int)
                            by (nonlinear_arith)
                            requires
                                sgn(y1 as int - y0 as int) == 1,
                        ;
                    } else {
                        assert(sgn(y1 as int - y0 as int) == -1);
                        assert(k as int * sgn(y1 as int - y0 as int) == -(k as int))
                            by (nonlinear_arith)
                            requires
                                sgn(y1 as int - y0 as int) == -1,
                        ;
                    }
                    if x1 >= x0 {
                        assert(sgn(x1 as int - x0 as int) == 1);
                        assert(sgn(x1 as int - x0 as int) * near_div(
                            adx as int * k as int,
                            ady as int,
                        ) == near_div(adx as int * k as int, ady as int)) by (nonlinear_arith)
                            requires
                                sgn(x1 as int - x0 as int) == 1,
                        ;
                    } else {
                        assert(sgn(x1 as int - x0 as int) == -1);
                        assert(sgn(x1 as int - x0 as int) * near_div(
                            adx as int * k as int,
                            ady as int,
                        ) == -near_div(adx as int * k as int, ady as int)) by (nonlinear_arith)
                            requires
                                sgn(x1 as int - x0 as int) == -1,
                        ;
                    }
                    assert((xx as int, yy as int) == line_point(
                        x0 as int,
                        y0 as int,
                        x1 as int,
                        y1 as int,
                        k as int,
                    ));
                }
                match self.set_pixel(xx, yy, color) {
                    Ok(()) => (),
                    Err(e) => {
                        return Err(e);
                    },
                }
                proof {
                    let cur = pts.take(k as int + 1);
                    assert(cur.drop_last() =~= pts.take(k as int));
                    assert(cur.last() == (xx as int, yy as int));
                    assert((base + plot_stream(pts.take(k as int), color, old(self).off_x, old(
                        self,
                    ).off_y)) + pixel_events(xx, yy, color, old(self).off_x, old(self).off_y) =~=
                    base + plot_stream(cur, color, old(self).off_x, old(self).off_y));
                }
                k = k + 1;
            }
            proof {
                assert(pts.take(pts.len() as int) =~= pts);
            }
            Ok(())
        }
    }

    /// Plots the eight reflections of the octant sample `(kx, yk)` around
    /// the center `(cx, cy)`: across the vertical axis, the horizontal
    /// axis, and the diagonal, in a fixed order, one window per pixel.
    #[verifier::rlimit(100)]
    fn plot_mirrored(&mut self, cx: u16, cy: u16, kx: u16, yk: u16, color: u16) -> (r: Result<
        (),
        Error,
    >)
        requires
            kx <= cx,
            kx <= cy,
            yk <= cx,
            yk <= cy,
            cx + kx + old(self).off_x <= u16::MAX,
            cx + yk + old(self).off_x <= u16::MAX,
            cy + kx + old(self).off_y <= u16::MAX,
            cy + yk + old(self).off_y <= u16::MAX,
        ensures
            final(self).cfg() == old(self).cfg(),
            r is Ok ==> final(self).events() == old(self).events() + plot_stream(
                seq![
                    ((cx + kx) as int, (cy + yk) as int),
                    ((cx + kx) as int, (cy - yk) as int),
                    ((cx - kx) as int, (cy + yk) as int),
                    ((cx - kx) as int, (cy - yk) as int),
                    ((cx + yk) as int, (cy + kx) as int),
                    ((cx + yk) as int, (cy - kx) as int),
                    ((cx - yk) as int, (cy + kx) as int),
                    ((cx - yk) as int, (cy - kx) as int),
                ],
                color,
                old(self).off_x,
                old(self).off_y,
            ),
            r is Err ==> r == Err::<(), Error>(Error::DisplayError),
    {
        let ghost offx = old(self).off_x;
        let ghost offy = old(self).off_y;
        let ghost base = self.events();
        let ghost mut done = Seq::<(int, int)>::empty();
        match self.set_pixel(cx + kx, cy + yk, color) {
            Ok(()) => (),
            Err(e) => {
                return Err(e);
            },
        }
        proof {
            lemma_plot_stream_push(done, ((cx + kx) as int, (cy + yk) as int), color, offx, offy);
            assert(self.events() =~= base + plot_stream(
                done.push(((cx + kx) as int, (cy + yk) as int)),
                color,
                offx,
                offy,
            ));
            done = done.push(((cx + kx) as int, (cy + yk) as int));
        }
        match self.set_pixel(cx + kx, cy - yk, color) {
            Ok(()) => (),
            Err(e) => {
                return Err(e);
            },
        }
        proof {
            lemma_plot_stream_push(done, ((cx + kx) as int, (cy - yk) as int), color, offx, offy);
            assert(self.events() =~= base + plot_stream(
                done.push(((cx + kx) as int, (cy - yk) as int)),
                color,
                offx,
                offy,
            ));
            done = done.push(((cx + kx) as int, (cy - yk) as int));
        }
        match self.set_pixel(cx - kx, cy + yk, color) {
            Ok(()) => (),
            Err(e) => {
                return Err(e);
            },
        }
        proof {
            lemma_plot_stream_push(done, ((cx - kx) as int, (cy + yk) as int), color, offx, offy);
            assert(self.events() =~= base + plot_stream(
                done.push(((cx - kx) as int, (cy + yk) as int)),
                color,
                offx,
                offy,
            ));
            done = done.push(((cx - kx) as int, (cy + yk) as int));
        }
        match self.set_pixel(cx - kx, cy - yk, color) {
            Ok(()) => (),
            Err(e) => {
                return Err(e);
            },
        }
        proof {
            lemma_plot_stream_push(done, ((cx - kx) as int, (cy - yk) as int), color, offx, offy);
            assert(self.events() =~= base + plot_stream(
                done.push(((cx - kx) as int, (cy - yk) as int)),
                color,
                offx,
                offy,
            ));
            done = done.push(((cx - kx) as int, (cy - yk) as int));
        }
        match self.set_pixel(cx + yk, cy + kx, color) {
            Ok(()) => (),
            Err(e) => {
                return Err(e);
            },
        }
        proof {
            lemma_plot_stream_push(done, ((cx + yk) as int, (cy + kx) as int), color, offx, offy);
            assert(self.events() =~= base + plot_stream(
                done.push(((cx + yk) as int, (cy + kx) as int)),
                color,
                offx,
                offy,
            ));
            done = done.push(((cx + yk) as int, (cy + kx) as int));
        }
        match self.set_pixel(cx + yk, cy - kx, color) {
            Ok(()) => (),
            Err(e) => {
                return Err(e);
            },
        }
        proof {
            lemma_plot_stream_push(done, ((cx + yk) as int, (cy - kx) as int), color, offx, offy);
            assert(self.events() =~= base + plot_stream(
                done.push(((cx + yk) as int, (cy - kx) as int)),
                color,
                offx,
                offy,
            ));
            done = done.push(((cx + yk) as int, (cy - kx) as int));
        }
        match self.set_pixel(cx - yk, cy + kx, color) {
            Ok(()) => (),
            Err(e) => {
                return Err(e);
            },
        }
        proof {
            lemma_plot_stream_push(done, ((cx - yk) as int, (cy + kx) as int), color, offx, offy);
            assert(self.events() =~= base + plot_stream(
                done.push(((cx - yk) as int, (cy + kx) as int)),
                color,
                offx,
                offy,
            ));
            done = done.push(((cx - yk) as int, (cy + kx) as int));
        }
        match self.set_pixel(cx - yk, cy - kx, color) {
            Ok(()) => (),
            Err(e) => {
                return Err(e);
            },
        }
        proof {
            lemma_plot_stream_push(done, ((cx - yk) as int, (cy - kx) as int), color, offx, offy);
            assert(self.events() =~= base + plot_stream(
                done.push(((cx - yk) as int, (cy - kx) as int)),
                color,
                offx,
                offy,
            ));
            done = done.push(((cx - yk) as int, (cy - kx) as int));
        }
        proof {
            assert(done =~= seq![
                ((cx + kx) as int, (cy + yk) as int),
                ((cx + kx) as int, (cy - yk) as int),
                ((cx - kx) as int, (cy + yk) as int),
                ((cx - kx) as int, (cy - yk) as int),
                ((cx + yk) as int, (cy + kx) as int),
                ((cx + yk) as int, (cy - kx) as int),
                ((cx - yk) as int, (cy + kx) as int),
                ((cx - yk) as int, (cy - kx) as int),
            ]);
        }
        Ok(())
    }

    /// Draws the outline of the circle of radius `rad` around `(cx, cy)`
    /// using eight-way symmetry: for each horizontal offset `k` up to the
    /// 45-degree octant boundary, the vertical offset is the integer
    /// square root of `rad * rad - k * k`, and the eight reflections of
    /// that sample across both axes and the diagonal are plotted, each
    /// with its own window.
    ///
    /// The shape must lie entirely in coordinate range (`rad <= cx`,
    /// `rad <= cy`, and the far edge within the panel's address space):
    /// out-of-range circles are rejected at compile time by this
    /// precondition rather than wrapping around.
    #[verifier::rlimit(100)]
    pub fn draw_circle_outline(&mut self, cx: u16, cy: u16, rad: u16, color: u16) -> (r: Result<
        (),
        Error,
    >)
        requires
            rad <= cx,
            rad <= cy,
            cx + rad + old(self).off_x <= u16::MAX,
            cy + rad + old(self).off_y <= u16::MAX,
        ensures
            final(self).cfg() == old(self).cfg(),
            r is Ok ==> final(self).events() == old(self).events() + plot_stream(
                circle_points(cx as int, cy as int, rad as nat),
                color,
                old(self).off_x,
                old(self).off_y,
            ),
            r is Err ==> r == Err::<(), Error>(Error::DisplayError),
    {
        proof {
            assert((rad as int) * (rad as int) <= 0xffff * 0xffff) by (nonlinear_arith)
                requires
                    rad <= 0xffff,
            ;
        }
        let r2: u32 = (rad as u32) * (rad as u32);
        let ghost base = self.events();
        let mut k: u32 = 0;
        loop
            invariant
                k <= rad as u32 + 1,
                rad <= cx,
                rad <= cy,
                cx + rad + old(self).off_x <= u16::MAX,
                cy + rad + old(self).off_y <= u16::MAX,
                r2 as int == (rad as int) * (rad as int),
                self.cfg() == old(self).cfg(),
                self.events() == base + plot_stream(
                    circle_points_upto(cx as int, cy as int, rad as nat, k as int),
                    color,
                    old(self).off_x,
                    old(self).off_y,
                ),
                octant_limit_from(rad as nat, 0) == octant_limit_from(rad as nat, k as nat),
            ensures
                self.cfg() == old(self).cfg(),
                self.events() == base + plot_stream(
                    circle_points(cx as int, cy as int, rad as nat),
                    color,
                    old(self).off_x,
                    old(self).off_y,
                ),
            decreases rad as int + 1 - k as int,
        {
            if k > rad as u32 {
                proof {
                    assert(octant_limit_from(rad as nat, k as nat) == k as nat);
                }
                break ;
            }
            proof {
                assert((k as int) * (k as int) <= (rad as int) * (rad as int))
                    by (nonlinear_arith)
                    requires
                        0 <= k <= rad,
                ;
            }
            let kk: u32 = k * k;
            let y32: u32 = isqrt(r2 - kk);
            let yk: u16 = y32 as u16;
            let kx: u16 = k as u16;
            proof {
                assert(yk as nat == chord_h(rad as nat, k as nat));
                lemma_sqrt_floor_bounds((r2 - kk) as nat);
                assert(yk <= rad) by (nonlinear_arith)
                    requires
                        (yk as int) * (yk as int) <= (rad as int) * (rad as int) - (k as int) * (
                        k as int),
                        0 <= k,
                        0 <= yk,
                        0 <= rad,
                ;
            }
            if kx > yk {
                proof {
                    assert(octant_limit_from(rad as nat, k as nat) == k as nat);
                }
                break ;
            }
            match self.plot_mirrored(cx, cy, kx, yk, color) {
                Ok(()) => (),
                Err(e) => {
                    return Err(e);
                },
            }
            proof {
                let up = circle_points_upto(cx as int, cy as int, rad as nat, k as int);
                let oct = octant_points(cx as int, cy as int, rad as nat, k as int);
                assert(oct =~= seq![
                    ((cx + kx) as int, (cy + yk) as int),
                    ((cx + kx) as int, (cy - yk) as int),
                    ((cx - kx) as int, (cy + yk) as int),
                    ((cx - kx) as int, (cy - yk) as int),
                    ((cx + yk) as int, (cy + kx) as int),
                    ((cx + yk) as int, (cy - kx) as int),
                    ((cx - yk) as int, (cy + kx) as int),
                    ((cx - yk) as int, (cy - kx) as int),
                ]);
                lemma_plot_stream_append(up, oct, color, old(self).off_x, old(self).off_y);
                assert((base + plot_stream(up, color, old(self).off_x, old(self).off_y))
                    + plot_stream(oct, color, old(self).off_x, old(self).off_y) =~= base
                    + plot_stream(up + oct, color, old(self).off_x, old(self).off_y));
                assert(up + oct =~= circle_points_upto(
                    cx as int,
                    cy as int,
                    rad as nat,
                    k as int + 1,
                ));
                assert(octant_limit_from(rad as nat, k as nat) == octant_limit_from(
                    rad as nat,
                    (k + 1) as nat,
                ));
            }
            k = k + 1;
        }
        Ok(())
    }

    /// Fills the circle of radius `rad` around `(cx, cy)`: for each
    /// horizontal offset `k` in `0 .. rad`, draws the vertical chord at
    /// `cx + k` and the one at `cx - k`, each spanning `cy - y` to
    /// `cy + y` where `y` is the half-chord height — one window and one
    /// run of words per chord rather than per-pixel windows.
    ///
    /// The same in-range precondition as the outline applies.
    #[verifier::loop_isolation(false)]
    #[verifier::rlimit(100)]
    pub fn draw_circle_filled(&mut self, cx: u16, cy: u16, rad: u16, color: u16) -> (r: Result<
        (),
        Error,
    >)
        requires
            rad <= cx,
            rad <= cy,
            cx + rad + old(self).off_x <= u16::MAX,
            cy + rad + old(self).off_y <= u16::MAX,
        ensures
            final(self).cfg() == old(self).cfg(),
            r is Ok ==> final(self).events() == old(self).events() + circle_fill_events(
                cx,
                cy,
                rad,
                color,
                old(self).off_x,
                old(self).off_y,
                rad as int,
            ),
            r is Err ==> r == Err::<(), Error>(Error::DisplayError),
    {
        proof {
            assert((rad as int) * (rad as int) <= 0xffff * 0xffff) by (nonlinear_arith)
                requires
                    rad <= 0xffff,
            ;
        }
        let r2: u32 = (rad as u32) * (rad as u32);
        let ghost base = self.events();
        let mut k: u32 = 0;
        while k < rad as u32
            invariant
                k <= rad as u32,
                self.cfg() == old(self).cfg(),
                self.events() == base + circle_fill_events(
                    cx,
                    cy,
                    rad,
                    color,
                    old(self).off_x,
                    old(self).off_y,
                    k as int,
                ),
            decreases rad as int - k as int,
        {
            proof {
                assert((k as int) * (k as int) <= (rad as int) * (rad as int))
                    by (nonlinear_arith)
                    requires
                        0 <= k <= rad,
                ;
            }
            let kk: u32 = k * k;
            let y32: u32 = isqrt(r2 - kk);
            let yk: u16 = y32 as u16;
            let kx: u16 = k as u16;
            proof {
                assert(yk as nat == chord_h(rad as nat, k as nat));
                lemma_sqrt_floor_bounds((r2 - kk) as nat);
                assert(yk <= rad) by (nonlinear_arith)
                    requires
                        (yk as int) * (yk as int) <= (rad as int) * (rad as int) - (k as int) * (
                        k as int),
                        0 <= k,
                        0 <= yk,
                        0 <= rad,
                ;
            }
            self.draw_vertical_line(cx + kx, cy - yk, cy + yk, color)?;
            let rr = self.draw_vertical_line(cx - kx, cy - yk, cy + yk, color);
            match rr {
                Ok(()) => (),
                Err(e) => {
                    return Err(e);
                },
            }
            proof {
                assert(self.events() =~= base + circle_fill_events(
                    cx,
                    cy,
                    rad,
                    color,
                    old(self).off_x,
                    old(self).off_y,
                    k as int + 1,
                ));
            }
            k = k + 1;
        }
        Ok(())
    }

    /// Draws one fixed-width 5x7 bitmap glyph with its anchor at
    /// `(x, y)`: for every set bit, one pixel, column `c` at `x - c` and
    /// row `i` at `y - i` — the glyph fills the cell above-left of the
    /// anchor.  The glyph's five column bytes come from the caller's font
    /// table; only their low seven bits are read.
    #[verifier::rlimit(100)]
    pub fn draw_glyph(&mut self, glyph: &[u8], x: u16, y: u16, color: u16) -> (r: Result<
        (),
        Error,
    >)
        requires
            glyph@.len() == 5,
            x >= 4,
            y >= 6,
            x + old(self).off_x <= u16::MAX,
            y + old(self).off_y <= u16::MAX,
        ensures
            final(self).cfg() == old(self).cfg(),
            r is Ok ==> final(self).events() == old(self).events() + plot_stream(
                glyph_points(glyph@, x as int, y as int, 5),
                color,
                old(self).off_x,
                old(self).off_y,
            ),
            r is Err ==> r == Err::<(), Error>(Error::DisplayError),
    {
        let ghost base = self.events();
        let ghost offx = old(self).off_x;
        let ghost offy = old(self).off_y;
        let mut col: usize = 0;
        while col < 5
            invariant
                col <= 5,
                glyph@.len() == 5,
                x >= 4,
                y >= 6,
                x + offx <= u16::MAX,
                y + offy <= u16::MAX,
                offx == old(self).off_x,
                offy == old(self).off_y,
                self.cfg() == old(self).cfg(),
                self.events() == base + plot_stream(
                    glyph_points(glyph@, x as int, y as int, col as int),
                    color,
                    offx,
                    offy,
                ),
            decreases 5 - col,
        {
            let bits: u8 = glyph[col];
            let gx: u16 = x - (col as u16);
            let mut row: u16 = 0;
            while row < 7
                invariant
                    row <= 7,
                    col < 5,
                    glyph@.len() == 5,
                    bits == glyph@[col as int],
                    gx == x - col,
                    x >= 4,
                    y >= 6,
                    x + offx <= u16::MAX,
                    y + offy <= u16::MAX,
                    offx == old(self).off_x,
                    offy == old(self).off_y,
                    self.cfg() == old(self).cfg(),
                    self.events() == base + plot_stream(
                        glyph_points(glyph@, x as int, y as int, col as int) + glyph_col_points(
                            bits,
                            gx as int,
                            y as int,
                            row as int,
                        ),
                        color,
                        offx,
                        offy,
                    ),
                decreases 7 - row,
            {
                let rb: u8 = row as u8;
                if (bits >> rb) & 1 == 1 {
                    match self.set_pixel(gx, y - row, color) {
                        Ok(()) => (),
                        Err(e) => {
                            return Err(e);
                        },
                    }
                    proof {
                        let s = glyph_points(glyph@, x as int, y as int, col as int)
                            + glyph_col_points(bits, gx as int, y as int, row as int);
                        let p = ((gx as int), ((y - row) as int));
                        lemma_plot_stream_push(s, p, color, offx, offy);
                        assert(bit_set(bits, row as int));
                        assert(s.push(p) =~= glyph_points(glyph@, x as int, y as int, col as int)
                            + glyph_col_points(bits, gx as int, y as int, row as int + 1));
                        assert(self.events() =~= base + plot_stream(s.push(p), color, offx, offy));
                    }
                } else {
                    proof {
                        assert(!bit_set(bits, row as int));
                        assert(glyph_col_points(bits, gx as int, y as int, row as int + 1)
                            =~= glyph_col_points(bits, gx as int, y as int, row as int));
                    }
                }
                row = row + 1;
            }
            proof {
                assert(glyph_points(glyph@, x as int, y as int, col as int + 1) =~= glyph_points(
                    glyph@,
                    x as int,
                    y as int,
                    col as int,
                ) + glyph_col_points(glyph@[col as int], gx as int, y as int, 7));
            }
            col = col + 1;
        }
        Ok(())
    }
}

} // verus!
