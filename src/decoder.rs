//! The pixel decoder: a cursor over the chunk stream of a QOI image, with the
//! 64-slot color cache that INDEX chunks refer back to.
use vstd::prelude::*;

use crate::color::{hash_pixel, spec_hash, Color};

verus! {

/// The state of a decoding pass, as a mathematical value.
pub struct Cursor {
    /// The last resolved color.
    pub prev: Color,
    /// The last resolved alpha value, used only for the cache slot.
    pub alpha: u8,
    /// The colors of the 64 cache slots.
    pub colors: Seq<Color>,
    /// The alpha values of the 64 cache slots.
    pub alphas: Seq<u8>,
    /// The chunk bytes not yet read.
    pub data: Seq<u8>,
    /// Repeats of `prev` still owed before the next chunk is read.
    pub run: u8,
}

/// Both caches of a cursor have their 64 slots.
pub open spec fn cache_complete(s: Cursor) -> bool {
    s.colors.len() == 64 && s.alphas.len() == 64
}

/// The color with every channel zero.
pub open spec fn black() -> Color {
    Color { r: 0, g: 0, b: 0 }
}

/// The cursor at the start of a pass over the chunk bytes `body`.
pub open spec fn initial_cursor(body: Seq<u8>) -> Cursor {
    Cursor {
        prev: black(),
        alpha: 255,
        colors: Seq::new(64, |i: int| black()),
        alphas: Seq::new(64, |i: int| 0u8),
        data: body,
        run: 0,
    }
}

/// A channel value taken modulo 256.
pub open spec fn wrap(x: int) -> u8 {
    (x % 256) as u8
}

/// The chunk byte of an RGB chunk.
pub open spec fn is_rgb_op(op: u8) -> bool {
    op == 0xfe
}

/// The chunk byte of an RGBA chunk.
pub open spec fn is_rgba_op(op: u8) -> bool {
    op == 0xff
}

/// Top two bits `00`: an INDEX chunk.
pub open spec fn is_index_op(op: u8) -> bool {
    op < 64
}

/// Top two bits `01`: a DIFF chunk.
pub open spec fn is_diff_op(op: u8) -> bool {
    64 <= op < 128
}

/// Top two bits `10`: a LUMA chunk.
pub open spec fn is_luma_op(op: u8) -> bool {
    128 <= op < 192
}

/// Top two bits `11`, but neither RGB nor RGBA: a RUN chunk.
pub open spec fn is_run_op(op: u8) -> bool {
    192 <= op < 254
}

/// The color that a DIFF chunk `op` makes of `p`: each channel moves by its
/// two-bit field minus 2, modulo 256.
pub open spec fn diff_color(p: Color, op: u8) -> Color {
    Color {
        r: wrap(p.r + (op / 16) % 4 - 2),
        g: wrap(p.g + (op / 4) % 4 - 2),
        b: wrap(p.b + op % 4 - 2),
    }
}

/// The color that a LUMA chunk of bytes `op`, `x` makes of `p`: green moves
/// by the low six bits of `op` minus 32, red and blue by that plus a nibble of
/// `x` minus 8, all modulo 256.
pub open spec fn luma_color(p: Color, op: u8, x: u8) -> Color {
    let dg = op % 64 - 32;
    Color {
        r: wrap(p.r + dg + x / 16 - 8),
        g: wrap(p.g + dg),
        b: wrap(p.b + dg + x % 16 - 8),
    }
}

/// Yields the resolved color `c` with alpha `a`, stores both in the cache slot
/// of their hash, and leaves `data` to be read.
pub open spec fn resolve(s: Cursor, c: Color, a: u8, data: Seq<u8>) -> (Option<Color>, Cursor) {
    let h = spec_hash(c, a);
    (
        Some(c),
        Cursor {
            prev: c,
            alpha: a,
            colors: s.colors.update(h, c),
            alphas: s.alphas.update(h, a),
            data,
            run: 0,
        },
    )
}

/// One step of decoding: the pixel produced (`None` when the sequence ends)
/// and the cursor after it.
pub open spec fn step(s: Cursor) -> (Option<Color>, Cursor) {
    if s.run > 0 {
        (Some(s.prev), Cursor { run: (s.run - 1) as u8, ..s })
    } else if s.data.len() == 0 {
        (None, s)
    } else {
        let op = s.data[0];
        let rest = s.data.drop_first();
        if is_rgb_op(op) {
            if rest.len() >= 3 {
                resolve(
                    s,
                    Color { r: rest[0], g: rest[1], b: rest[2] },
                    s.alpha,
                    rest.subrange(3, rest.len() as int),
                )
            } else {
                (None, Cursor { data: rest, ..s })
            }
        } else if is_rgba_op(op) {
            if rest.len() >= 4 {
                resolve(
                    s,
                    Color { r: rest[0], g: rest[1], b: rest[2] },
                    rest[3],
                    rest.subrange(4, rest.len() as int),
                )
            } else {
                (None, Cursor { data: rest, ..s })
            }
        } else if is_index_op(op) {
            let i = op as int;
            (
                Some(s.colors[i]),
                Cursor { prev: s.colors[i], alpha: s.alphas[i], data: rest, ..s },
            )
        } else if is_diff_op(op) {
            resolve(s, diff_color(s.prev, op), s.alpha, rest)
        } else if is_luma_op(op) {
            if rest.len() >= 1 {
                resolve(s, luma_color(s.prev, op, rest[0]), s.alpha, rest.drop_first())
            } else {
                (None, Cursor { data: rest, ..s })
            }
        } else {
            (Some(s.prev), Cursor { run: op % 64, data: rest, ..s })
        }
    }
}

/// Moves a channel by `d - 2`, modulo 256.
fn diff_channel(c: u8, d: u8) -> (r: u8)
    requires
        d < 4,
    ensures
        r == wrap(c + d - 2),
{
    c.wrapping_add(d).wrapping_sub(2)
}

/// Applies the fields `dr`, `dg`, `db` of a DIFF chunk to `p`.
fn apply_diff(p: Color, dr: u8, dg: u8, db: u8) -> (c: Color)
    requires
        dr < 4,
        dg < 4,
        db < 4,
    ensures
        c == (Color { r: wrap(p.r + dr - 2), g: wrap(p.g + dg - 2), b: wrap(p.b + db - 2) }),
{
    Color::new(diff_channel(p.r, dr), diff_channel(p.g, dg), diff_channel(p.b, db))
}

/// Moves a channel by `d - 8 + (g - 32)`, modulo 256, as the red and blue
/// channels of a LUMA chunk move.
fn luma_channel(c: u8, g: u8, d: u8) -> (r: u8)
    requires
        g < 64,
        d < 16,
    ensures
        r == wrap(c + (g - 32) + d - 8),
{
    let dg = g.wrapping_sub(32);
    let dc = d.wrapping_sub(8).wrapping_add(dg);
    c.wrapping_add(dc)
}

/// Applies a LUMA chunk to `p`: `g` is the low six bits of its first byte,
/// `hi` and `lo` the nibbles of its second.
fn apply_luma(p: Color, g: u8, hi: u8, lo: u8) -> (c: Color)
    requires
        g < 64,
        hi < 16,
        lo < 16,
    ensures
        c == (Color {
            r: wrap(p.r + (g - 32) + hi - 8),
            g: wrap(p.g + (g - 32)),
            b: wrap(p.b + (g - 32) + lo - 8),
        }),
{
    let dg = g.wrapping_sub(32);
    Color::new(luma_channel(p.r, g, hi), p.g.wrapping_add(dg), luma_channel(p.b, g, lo))
}

/// Bounds the steps left in a pass: each byte read may start a run of at
/// most 255 repeats.
pub open spec fn measure(s: Cursor) -> nat {
    s.data.len() * 256 + s.run as nat
}

/// A step that yields a pixel brings the cursor closer to its end.
pub proof fn lemma_step_measure(s: Cursor)
    ensures
        step(s).0 is Some ==> measure(step(s).1) < measure(s),
{
}

/// The whole sequence of pixels that a pass from `s` produces: it stops at the
/// first step that yields none.
pub open spec fn pixels_from(s: Cursor) -> Seq<Color>
    decreases measure(s),
    via pixels_from_decreases
{
    match step(s).0 {
        None => Seq::empty(),
        Some(c) => seq![c] + pixels_from(step(s).1),
    }
}

#[via_fn]
proof fn pixels_from_decreases(s: Cursor) {
    lemma_step_measure(s);
}

/// Two passes that start from the same chunk bytes produce the same pixels:
/// decoding depends on the bytes alone.
pub proof fn lemma_passes_agree(body: Seq<u8>, a: Cursor, b: Cursor)
    requires
        a == initial_cursor(body),
        b == initial_cursor(body),
    ensures
        pixels_from(a) == pixels_from(b),
{
}

/// `n` copies of color `c`.
pub open spec fn repeat(c: Color, n: nat) -> Seq<Color> {
    Seq::new(n, |i: int| c)
}

/// A cursor that owes `run` repeats yields the previous color that many times
/// without reading a byte, and then goes on as the same cursor with no repeats
/// owed.
pub proof fn lemma_pending_run(s: Cursor)
    ensures
        pixels_from(s) == repeat(s.prev, s.run as nat) + pixels_from(Cursor { run: 0, ..s }),
    decreases s.run,
{
    if s.run > 0 {
        let t = step(s).1;
        lemma_pending_run(t);
        assert(t == Cursor { run: (s.run - 1) as u8, ..s });
        assert(Cursor { run: 0, ..t } == Cursor { run: 0, ..s });
        assert(repeat(s.prev, s.run as nat) =~= seq![s.prev] + repeat(s.prev, t.run as nat));
    } else {
        assert(s == Cursor { run: 0, ..s });
        assert(repeat(s.prev, 0) + pixels_from(s) =~= pixels_from(s));
    }
}

/// A RUN chunk whose low six bits are `n` yields the previous color `n + 1`
/// times, one now and `n` owed, before the next chunk is read.
pub proof fn lemma_run_chunk(s: Cursor)
    requires
        s.run == 0,
        s.data.len() > 0,
        is_run_op(s.data[0]),
    ensures
        pixels_from(s) == repeat(s.prev, (s.data[0] % 64 + 1) as nat) + pixels_from(
            Cursor { data: s.data.drop_first(), ..s },
        ),
{
    let op = s.data[0];
    let t = step(s).1;
    assert(t == Cursor { run: op % 64, data: s.data.drop_first(), ..s });
    lemma_pending_run(t);
    assert(Cursor { run: 0, ..t } == Cursor { data: s.data.drop_first(), ..s });
    assert(repeat(s.prev, (op % 64 + 1) as nat) =~= seq![s.prev] + repeat(s.prev, t.run as nat));
}

/// Right after an RGB, RGBA, DIFF or LUMA chunk resolves a pixel, an INDEX
/// chunk that names that pixel's hash yields that pixel again, and reads
/// nothing but its own byte.
pub proof fn lemma_index_after_resolve(s: Cursor)
    requires
        cache_complete(s),
        s.run == 0,
        s.data.len() > 0,
        is_rgb_op(s.data[0]) || is_rgba_op(s.data[0]) || is_diff_op(s.data[0]) || is_luma_op(
            s.data[0],
        ),
        step(s).0 is Some,
        step(s).1.data.len() > 0,
        step(s).1.data[0] == spec_hash(step(s).1.prev, step(s).1.alpha),
    ensures
        step(step(s).1) == (
        Some(step(s).1.prev),
        Cursor { data: step(s).1.data.drop_first(), ..step(s).1 },
        ),
{
    let t = step(s).1;
    let h = spec_hash(t.prev, t.alpha);
    assert(t.colors[h] == t.prev);
    assert(t.alphas[h] == t.alpha);
}

/// DIFF and LUMA chunks move each channel modulo 256: the channel after the
/// chunk is the channel before it plus the chunk's delta, reduced modulo 256,
/// never clamped.
pub proof fn lemma_deltas_wrap(s: Cursor)
    requires
        s.run == 0,
        s.data.len() > 0,
    ensures
        is_diff_op(s.data[0]) ==> {
            let op = s.data[0];
            let c = diff_color(s.prev, op);
            &&& step(s).0 == Some(c)
            &&& c.r as int == (s.prev.r + (op / 16) % 4 - 2) % 256
            &&& c.g as int == (s.prev.g + (op / 4) % 4 - 2) % 256
            &&& c.b as int == (s.prev.b + op % 4 - 2) % 256
        },
        is_luma_op(s.data[0]) && s.data.len() > 1 ==> {
            let op = s.data[0];
            let x = s.data[1];
            let c = luma_color(s.prev, op, x);
            &&& step(s).0 == Some(c)
            &&& c.r as int == (s.prev.r + op % 64 - 32 + x / 16 - 8) % 256
            &&& c.g as int == (s.prev.g + op % 64 - 32) % 256
            &&& c.b as int == (s.prev.b + op % 64 - 32 + x % 16 - 8) % 256
        },
{
}

/// Cursor over the pixels of a QOI image.
#[derive(Debug)]
pub struct PixelsIter<'a> {
    previous_color: Color,
    previous_alpha: u8,
    previous_colors: [Color; 64],
    previous_alphas: [u8; 64],
    data: &'a [u8],
    run_length: u8,
}

impl<'a> View for PixelsIter<'a> {
    type V = Cursor;

    closed spec fn view(&self) -> Cursor {
        Cursor {
            prev: self.previous_color,
            alpha: self.previous_alpha,
            colors: self.previous_colors@,
            alphas: self.previous_alphas@,
            data: self.data@,
            run: self.run_length,
        }
    }
}

impl<'a> PixelsIter<'a> {
    /// A fresh cursor at the start of the chunk bytes `data`.
    pub(crate) fn new(data: &'a [u8]) -> (it: PixelsIter<'a>)
        ensures
            it@ == initial_cursor(data@),
    {
        let it = PixelsIter {
            previous_color: Color::black(),
            previous_alpha: 255,
            previous_colors: [Color::black(); 64],
            previous_alphas: [0; 64],
            data,
            run_length: 0,
        };
        assert(it@.colors =~= initial_cursor(data@).colors);
        assert(it@.alphas =~= initial_cursor(data@).alphas);
        it
    }

    /// Produces the next pixel, or `None` when the chunk stream is exhausted or
    /// ends inside a chunk.
    pub fn next(&mut self) -> (r: Option<Color>)
        ensures
            (r, final(self)@) == step(old(self)@),
    {
        if self.run_length > 0 {
            self.run_length = self.run_length - 1;
            return Some(self.previous_color);
        }
        if self.data.len() == 0 {
            return None;
        }
        let byte = self.data[0];
        let (_, rest) = self.data.split_at(1);
        self.data = rest;
        proof {
            assert(self.data@ =~= old(self)@.data.drop_first());
        }
        if byte == 0xfe {
            // RGB chunk
            if self.data.len() >= 3 {
                self.previous_color = Color::new(self.data[0], self.data[1], self.data[2]);
                let (_, rest) = self.data.split_at(3);
                self.data = rest;
            } else {
                return None;
            }
        } else if byte == 0xff {
            // RGBA chunk
            if self.data.len() >= 4 {
                self.previous_color = Color::new(self.data[0], self.data[1], self.data[2]);
                self.previous_alpha = self.data[3];
                let (_, rest) = self.data.split_at(4);
                self.data = rest;
            } else {
                return None;
            }
        } else {
            let tag = byte & 0xc0;
            proof {
                assert(tag == 0 <==> byte < 64) by (bit_vector)
                    requires tag == byte & 0xc0;
                assert(tag == 0x40 <==> 64 <= byte < 128) by (bit_vector)
                    requires tag == byte & 0xc0;
                assert(tag == 0x80 <==> 128 <= byte < 192) by (bit_vector)
                    requires tag == byte & 0xc0;
                assert(byte & 0x3f == byte % 64) by (bit_vector);
            }
            if tag == 0 {
                // INDEX chunk: the pixel is in the cache already
                let index = (byte & 0x3f) as usize;
                self.previous_color = self.previous_colors[index];
                self.previous_alpha = self.previous_alphas[index];
                return Some(self.previous_color);
            } else if tag == 0x40 {
                // DIFF chunk
                let dr = (byte >> 4) & 0x3;
                let dg = (byte >> 2) & 0x3;
                let db = byte & 0x3;
                proof {
                    assert(dr == (byte / 16) % 4) by (bit_vector)
                        requires dr == (byte >> 4) & 0x3;
                    assert(dg == (byte / 4) % 4) by (bit_vector)
                        requires dg == (byte >> 2) & 0x3;
                    assert(db == byte % 4) by (bit_vector)
                        requires db == byte & 0x3;
                    assert(dr < 4 && dg < 4 && db < 4);
                }
                self.previous_color = apply_diff(self.previous_color, dr, dg, db);
            } else if tag == 0x80 {
                // LUMA chunk
                if self.data.len() >= 1 {
                    let byte2 = self.data[0];
                    let (_, rest) = self.data.split_at(1);
                    self.data = rest;
                    proof {
                        assert(byte2 >> 4 == byte2 / 16) by (bit_vector);
                        assert(byte2 & 0x0f == byte2 % 16) by (bit_vector);
                        assert(byte2 >> 4 < 16) by (bit_vector);
                        assert(byte2 & 0x0f < 16) by (bit_vector);
                        assert(byte & 0x3f < 64) by (bit_vector);
                    }
                    self.previous_color = apply_luma(
                        self.previous_color,
                        byte & 0x3f,
                        byte2 >> 4,
                        byte2 & 0x0f,
                    );
                } else {
                    return None;
                }
            } else {
                // RUN chunk
                self.run_length = byte & 0x3f;
                return Some(self.previous_color);
            }
        }
        let index = hash_pixel(self.previous_color, self.previous_alpha) as usize;
        self.previous_colors[index] = self.previous_color;
        self.previous_alphas[index] = self.previous_alpha;
        Some(self.previous_color)
    }
}

} // verus!
