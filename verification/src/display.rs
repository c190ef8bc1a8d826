//! The display bridge: the framebuffer's geometry, and the blit of the
//! engine's frame into it.

use crate::ctype::is_digit;
use vstd::arithmetic::div_mod::{
    lemma_div_pos_is_pos, lemma_fundamental_div_mod, lemma_fundamental_div_mod_converse,
    lemma_mod_bound,
};
use vstd::arithmetic::mul::lemma_mul_inequality;
use vstd::prelude::*;

verus! {

/// The width of the engine's frame, in pixels.
pub const RES_X: usize = 640;

/// The height of the engine's frame, in pixels.
pub const RES_Y: usize = 400;

/// Each pixel of the frame fills a square of this many framebuffer pixels
/// a side.
pub const SCALE: usize = 2;

/// The bytes of one framebuffer pixel.
pub const PIXEL: usize = 4;

/// A framebuffer: its geometry and its bytes, row after row, `pitch` bytes
/// from one row to the next.
#[derive(Clone, Debug, PartialEq, Eq)]
pub struct Framebuffer {
    pub width: usize,
    pub height: usize,
    pub pitch: usize,
    pub buf: Vec<u8>,
}

/// The number that a run of decimal digits spells.
pub open spec fn decimal_of(digits: Seq<u8>) -> int
    decreases digits.len(),
{
    if digits.len() == 0 {
        0
    } else {
        decimal_of(digits.drop_last()) * 10 + (digits.last() - 0x30)
    }
}

/// The digits of a decimal field: the field without the plus sign that may
/// stand in front.
pub open spec fn digits_of(field: Seq<u8>) -> Seq<u8> {
    if field.len() > 0 && field[0] == 0x2b {
        field.skip(1)
    } else {
        field
    }
}

/// The value of a decimal field: at least one digit and nothing but digits,
/// behind at most one plus sign, spelling a number that a `usize` holds.
pub open spec fn decimal(field: Seq<u8>) -> Option<int> {
    let digits = digits_of(field);
    if digits.len() > 0 && (forall|i: int| 0 <= i < digits.len() ==> is_digit(digits[i] as int))
        && decimal_of(digits) <= usize::MAX {
        Some(decimal_of(digits))
    } else {
        None
    }
}

/// The offset of the first colon at or after `i`, or the length of `s` when
/// there is none.
pub open spec fn field_end(s: Seq<u8>, i: int) -> int
    decreases s.len() - i,
{
    if 0 <= i < s.len() && s[i] != 0x3a {
        field_end(s, i + 1)
    } else {
        i
    }
}

/// A line without the line feed that may end it.
pub open spec fn chomp(line: Seq<u8>) -> Seq<u8> {
    if line.len() > 0 && line.last() == 0x0a {
        line.drop_last()
    } else {
        line
    }
}

/// The geometry that a line of the framebuffer's companion stream gives:
/// width, height and pitch as three decimal fields with colons between them.
/// Further fields may follow a third colon, and a line feed may end the line.
pub open spec fn geometry(line: Seq<u8>) -> Option<(int, int, int)> {
    let s = chomp(line);
    let e0 = field_end(s, 0);
    let e1 = field_end(s, e0 + 1);
    let e2 = field_end(s, e1 + 1);
    if e0 < s.len() && e1 < s.len() {
        match (
            decimal(s.subrange(0, e0)),
            decimal(s.subrange(e0 + 1, e1)),
            decimal(s.subrange(e1 + 1, e2)),
        ) {
            (Some(w), Some(h), Some(p)) => Some((w, h, p)),
            _ => None,
        }
    } else {
        None
    }
}

proof fn lemma_decimal_grows(digits: Seq<u8>, k: int)
    requires
        0 <= k <= digits.len(),
        forall|i: int| 0 <= i < digits.len() ==> is_digit(digits[i] as int),
    ensures
        0 <= decimal_of(digits.take(k)) <= decimal_of(digits),
    decreases digits.len() - k,
{
    if k == digits.len() {
        assert(digits.take(k) =~= digits);
        lemma_decimal_nonnegative(digits);
    } else {
        lemma_decimal_grows(digits, k + 1);
        let longer = digits.take(k + 1);
        assert(longer.drop_last() =~= digits.take(k));
        lemma_decimal_nonnegative(digits.take(k));
    }
}

proof fn lemma_decimal_nonnegative(digits: Seq<u8>)
    requires
        forall|i: int| 0 <= i < digits.len() ==> is_digit(digits[i] as int),
    ensures
        0 <= decimal_of(digits),
    decreases digits.len(),
{
    if digits.len() > 0 {
        lemma_decimal_nonnegative(digits.drop_last());
    }
}

/// Reads the decimal field `line[from..to]`.
fn parse_decimal(line: &[u8], from: usize, to: usize) -> (value: Option<usize>)
    requires
        from <= to <= line@.len(),
    ensures
        match decimal(line@.subrange(from as int, to as int)) {
            Some(v) => value matches Some(x) && x == v,
            None => value is None,
        },
{
    let ghost field = line@.subrange(from as int, to as int);
    let ghost digits = digits_of(field);
    let mut i = from;
    if i < to && line[i] == 0x2b {
        i += 1;
    }
    let start = i;
    assert(digits =~= line@.subrange(start as int, to as int));
    if start == to {
        return None;
    }
    let mut acc: usize = 0;
    while i < to
        invariant
            from <= start <= i <= to <= line@.len(),
            start < to,
            digits == digits_of(line@.subrange(from as int, to as int)),
            digits == line@.subrange(start as int, to as int),
            forall|j: int| 0 <= j < i - start ==> is_digit(digits[j] as int),
            acc == decimal_of(digits.take(i - start)),
        decreases to - i,
    {
        let c = line[i];
        if !(0x30 <= c && c <= 0x39) {
            assert(!is_digit(digits[i - start] as int));
            return None;
        }
        let ghost longer = digits.take(i - start + 1);
        assert(longer.drop_last() =~= digits.take(i - start));
        assert(longer.last() == c);
        let next = match acc.checked_mul(10) {
            Some(m) => m.checked_add((c - 0x30) as usize),
            None => None,
        };
        match next {
            Some(n) => {
                acc = n;
            },
            None => {
                proof {
                    assert(decimal_of(longer) > usize::MAX);
                    if forall|j: int| 0 <= j < digits.len() ==> is_digit(digits[j] as int) {
                        lemma_decimal_grows(digits, i - start + 1);
                    }
                }
                return None;
            },
        }
        i += 1;
    }
    assert(digits.take(to - start) =~= digits);
    Some(acc)
}

/// The end of the field that starts at `from`, in a line that ends at `end`.
fn find_field_end(line: &[u8], from: usize, end: usize) -> (at: usize)
    requires
        from <= end <= line@.len(),
    ensures
        at == field_end(line@.take(end as int), from as int),
        from <= at <= end,
{
    let ghost s = line@.take(end as int);
    let mut i = from;
    while i < end && line[i] != 0x3a
        invariant
            from <= i <= end <= line@.len(),
            s == line@.take(end as int),
            field_end(s, from as int) == field_end(s, i as int),
        decreases end - i,
    {
        i += 1;
    }
    i
}

/// Reads the geometry of the framebuffer from the one line of its companion
/// stream. The framebuffer it returns has no bytes yet.
pub fn framebuffer_info(line: &[u8]) -> (info: Option<Framebuffer>)
    ensures
        match geometry(line@) {
            Some((w, h, p)) => {
                &&& info matches Some(fb)
                &&& fb.width == w
                &&& fb.height == h
                &&& fb.pitch == p
                &&& fb.buf@.len() == 0
            },
            None => info is None,
        },
{
    let end = if line.len() > 0 && line[line.len() - 1] == 0x0a {
        line.len() - 1
    } else {
        line.len()
    };
    let ghost s = chomp(line@);
    assert(s =~= line@.take(end as int));
    let e0 = find_field_end(line, 0, end);
    if e0 >= end {
        return None;
    }
    let e1 = find_field_end(line, e0 + 1, end);
    if e1 >= end {
        return None;
    }
    let e2 = find_field_end(line, e1 + 1, end);
    assert(s.subrange(0, e0 as int) =~= line@.subrange(0, e0 as int));
    assert(s.subrange(e0 + 1, e1 as int) =~= line@.subrange(e0 + 1, e1 as int));
    assert(s.subrange(e1 + 1, e2 as int) =~= line@.subrange(e1 + 1, e2 as int));
    let width = match parse_decimal(line, 0, e0) {
        Some(v) => v,
        None => {
            return None;
        },
    };
    let height = match parse_decimal(line, e0 + 1, e1) {
        Some(v) => v,
        None => {
            return None;
        },
    };
    let pitch = match parse_decimal(line, e1 + 1, e2) {
        Some(v) => v,
        None => {
            return None;
        },
    };
    Some(Framebuffer { width, height, pitch, buf: Vec::new() })
}

/// The colour channels of a pixel in the order in which the framebuffer
/// takes them: red and blue change places, green stays.
pub fn reorder(r: u8, g: u8, b: u8) -> (out: (u8, u8, u8))
    ensures
        out == (b, g, r),
{
    (b, g, r)
}

/// The bytes of a framebuffer after `n` bytes from offset `spot` on were
/// painted with the pixel `color`, repeated.
pub open spec fn paint(buf: Seq<u8>, spot: int, n: int, color: Seq<u8>) -> Seq<u8> {
    Seq::new(
        buf.len(),
        |k: int|
            if spot <= k < spot + n {
                color[(k - spot) % 4]
            } else {
                buf[k]
            },
    )
}

/// The bytes of a framebuffer after a rectangle was filled: `h` rows from row
/// `y` on, top to bottom, each painted over `w` pixels from pixel `x` on.
pub open spec fn fill_rows(
    buf: Seq<u8>,
    pitch: int,
    x: int,
    y: int,
    w: int,
    h: int,
    color: Seq<u8>,
) -> Seq<u8>
    decreases h,
{
    if h <= 0 {
        buf
    } else {
        paint(
            fill_rows(buf, pitch, x, y, w, h - 1, color),
            x * 4 + (y + h - 1) * pitch,
            4 * w,
            color,
        )
    }
}

/// The rectangle lies within the bytes of the framebuffer.
pub open spec fn rect_fits(len: int, pitch: int, x: int, y: int, w: int, h: int) -> bool {
    h > 0 ==> x * 4 + (y + h - 1) * pitch + 4 * w <= len
}

impl Framebuffer {
    /// Fills the rectangle of `w` by `h` pixels at pixel `x` of row `y` with
    /// one colour.
    pub fn fill(&mut self, x: usize, y: usize, w: usize, h: usize, color: [u8; 4])
        requires
            y + h <= usize::MAX,
            rect_fits(
                old(self).buf@.len() as int,
                old(self).pitch as int,
                x as int,
                y as int,
                w as int,
                h as int,
            ),
        ensures
            final(self).buf@ == fill_rows(
                old(self).buf@,
                old(self).pitch as int,
                x as int,
                y as int,
                w as int,
                h as int,
                color@,
            ),
            final(self).buf@.len() == old(self).buf@.len(),
            final(self).width == old(self).width,
            final(self).height == old(self).height,
            final(self).pitch == old(self).pitch,
    {
        let pitch = self.pitch;
        let ghost len = self.buf@.len() as int;
        assert(len == self.buf.len());
        let mut r: usize = 0;
        while r < h
            invariant
                0 <= r <= h,
                y + h <= usize::MAX,
                len <= usize::MAX,
                rect_fits(len, pitch as int, x as int, y as int, w as int, h as int),
                self.buf@.len() == len,
                self.pitch == pitch,
                self.width == old(self).width,
                self.height == old(self).height,
                self.buf@ == fill_rows(
                    old(self).buf@,
                    pitch as int,
                    x as int,
                    y as int,
                    w as int,
                    r as int,
                    color@,
                ),
            decreases h - r,
        {
            let yd = y + r;
            proof {
                lemma_mul_inequality(yd as int, y + h - 1, pitch as int);
            }
            let spot = x * 4 + yd * pitch;
            let n = 4 * w;
            let ghost row_start = self.buf@;
            let mut k: usize = 0;
            while k < n
                invariant
                    0 <= k <= n,
                    spot + n <= len <= usize::MAX,
                    self.buf@.len() == len,
                    row_start.len() == len,
                    self.pitch == pitch,
                    self.width == old(self).width,
                    self.height == old(self).height,
                    self.buf@ == paint(row_start, spot as int, k as int, color@),
                decreases n - k,
            {
                self.buf[spot + k] = color[k % 4];
                assert(self.buf@ =~= paint(row_start, spot as int, k + 1, color@));
                k += 1;
            }
            r += 1;
        }
    }
}

/// The bytes of a framebuffer after the first `n` pixels of a frame were
/// drawn, row by row from the top left: each pixel fills its square of
/// `SCALE` by `SCALE` framebuffer pixels.
pub open spec fn blit(buf: Seq<u8>, pitch: int, cells: Seq<[u8; 4]>, n: int) -> Seq<u8>
    decreases n,
{
    if n <= 0 {
        buf
    } else {
        let p = n - 1;
        fill_rows(
            blit(buf, pitch, cells, p),
            pitch,
            (p % (RES_X as int)) * SCALE,
            (p / (RES_X as int)) * SCALE,
            SCALE as int,
            SCALE as int,
            cells[p]@,
        )
    }
}

/// The scaled frame lies within a framebuffer of `len` bytes: its bottom
/// right square does.
pub open spec fn frame_fits(len: int, pitch: int) -> bool {
    rect_fits(len, pitch, (RES_X - 1) * SCALE, (RES_Y - 1) * SCALE, SCALE as int, SCALE as int)
}

impl Framebuffer {
    /// Whether the scaled frame lies within this framebuffer.
    pub fn holds_frame(&self) -> (ok: bool)
        ensures
            ok == frame_fits(self.buf@.len() as int, self.pitch as int),
    {
        let in_row = (RES_X - 1) * SCALE * PIXEL + PIXEL * SCALE;
        let last_row = (RES_Y - 1) * SCALE + SCALE - 1;
        let len = self.buf.len();
        assert(frame_fits(len as int, self.pitch as int) == (in_row + last_row * self.pitch
            <= len)) by {
            assert((RES_X - 1) * SCALE == 1278);
            assert((RES_Y - 1) * SCALE == 798);
        }
        match last_row.checked_mul(self.pitch) {
            Some(rows) => match rows.checked_add(in_row) {
                Some(end) => end <= len,
                None => false,
            },
            None => false,
        }
    }
}

/// Draws a frame of the engine into the framebuffer, scaled up. `cells`
/// holds the frame's pixels row by row, each as the four bytes that the
/// framebuffer takes for it, its channels in the order of `reorder`.
pub fn draw_frame(fb: &mut Framebuffer, cells: &[[u8; 4]])
    requires
        cells@.len() == RES_X * RES_Y,
        frame_fits(old(fb).buf@.len() as int, old(fb).pitch as int),
    ensures
        final(fb).buf@ == blit(old(fb).buf@, old(fb).pitch as int, cells@, RES_X * RES_Y),
        final(fb).buf@.len() == old(fb).buf@.len(),
        final(fb).width == old(fb).width,
        final(fb).height == old(fb).height,
        final(fb).pitch == old(fb).pitch,
{
    let ghost len = fb.buf@.len() as int;
    let ghost pitch = fb.pitch as int;
    let mut y: usize = 0;
    while y < RES_Y
        invariant
            0 <= y <= RES_Y,
            cells@.len() == RES_X * RES_Y,
            frame_fits(len, pitch),
            fb.buf@.len() == len,
            fb.pitch == pitch,
            fb.width == old(fb).width,
            fb.height == old(fb).height,
            fb.buf@ == blit(old(fb).buf@, pitch, cells@, y * RES_X),
        decreases RES_Y - y,
    {
        let mut x: usize = 0;
        while x < RES_X
            invariant
                0 <= x <= RES_X,
                0 <= y < RES_Y,
                cells@.len() == RES_X * RES_Y,
                frame_fits(len, pitch),
                fb.buf@.len() == len,
                fb.pitch == pitch,
                fb.width == old(fb).width,
                fb.height == old(fb).height,
                fb.buf@ == blit(old(fb).buf@, pitch, cells@, y * RES_X + x),
            decreases RES_X - x,
        {
            let p = x + y * RES_X;
            let px = cells[p];
            proof {
                lemma_mul_inequality(y * SCALE + 1, (RES_Y - 1) * SCALE + 1, pitch);
                assert((p as int) % (RES_X as int) == x);
                assert((p as int) / (RES_X as int) == y);
            }
            fb.fill(x * SCALE, y * SCALE, SCALE, SCALE, px);
            x += 1;
        }
        y += 1;
    }
}

/// The bytes that the scaled frame takes of each framebuffer row.
pub open spec fn row_bytes() -> int {
    RES_X * SCALE * PIXEL
}

/// The pixel of the frame that the byte at offset `k` of the framebuffer
/// shows, counted row by row, if it shows one: the byte lies in row
/// `k / pitch`, and `k % pitch` bytes into it.
pub open spec fn owner(k: int, pitch: int) -> Option<int> {
    let row = k / pitch;
    let within = k % pitch;
    if within < row_bytes() && row < RES_Y * SCALE {
        Some(within / (SCALE * PIXEL) + (row / (SCALE as int)) * RES_X)
    } else {
        None
    }
}

proof fn lemma_in_span(k: int, pitch: int, q: int, lo: int)
    requires
        0 <= lo,
        lo + 8 <= pitch,
    ensures
        (lo + q * pitch <= k < lo + q * pitch + 8) <==> (k / pitch == q && lo <= k % pitch < lo
            + 8),
{
    lemma_fundamental_div_mod(k, pitch);
    lemma_mod_bound(k, pitch);
    if lo + q * pitch <= k < lo + q * pitch + 8 {
        lemma_fundamental_div_mod_converse(k, pitch, q, k - q * pitch);
    }
    if k / pitch == q {
        assert(pitch * (k / pitch) == q * pitch) by (nonlinear_arith)
            requires
                k / pitch == q,
        ;
    }
}

proof fn lemma_square(b: Seq<u8>, pitch: int, px: int, py: int, color: Seq<u8>, k: int)
    requires
        pitch >= row_bytes(),
        0 <= px < RES_X,
        0 <= py < RES_Y,
        0 <= k < b.len(),
    ensures
        fill_rows(b, pitch, px * SCALE, py * SCALE, SCALE as int, SCALE as int, color).len()
            == b.len(),
        fill_rows(b, pitch, px * SCALE, py * SCALE, SCALE as int, SCALE as int, color)[k] == if owner(
            k,
            pitch,
        ) == Some(px + py * RES_X) {
            color[(k % pitch) % 4]
        } else {
            b[k]
        },
{
    assert(row_bytes() == 5120) by {
        assert(RES_X * SCALE == 1280);
    }
    let within = k % pitch;
    let row = k / pitch;
    lemma_fundamental_div_mod(k, pitch);
    lemma_mod_bound(k, pitch);
    lemma_div_pos_is_pos(k, pitch);
    lemma_in_span(k, pitch, py * 2, px * 8);
    lemma_in_span(k, pitch, py * 2 + 1, px * 8);
    let spot0 = (px * 2) * 4 + (py * 2 + 1 - 1) * pitch;
    let spot1 = (px * 2) * 4 + (py * 2 + 2 - 1) * pitch;
    let first = paint(b, spot0, 8int, color);
    let both = paint(first, spot1, 8int, color);
    assert(fill_rows(b, pitch, px * 2, py * 2, 2, 2, color) == both) by {
        reveal_with_fuel(fill_rows, 3);
    }
    assert(spot0 == px * 8 + (py * 2) * pitch);
    assert(spot1 == px * 8 + (py * 2 + 1) * pitch);
    assert(k == row * pitch + within) by (nonlinear_arith)
        requires
            k == pitch * row + within,
    ;
    let in_first = spot0 <= k < spot0 + 8;
    let in_second = spot1 <= k < spot1 + 8;
    assert(in_first <==> (row == py * 2 && px * 8 <= within < px * 8 + 8));
    assert(in_second <==> (row == py * 2 + 1 && px * 8 <= within < px * 8 + 8));
    assert(both[k] == if in_second {
        color[(k - spot1) % 4]
    } else if in_first {
        color[(k - spot0) % 4]
    } else {
        b[k]
    });
    if in_first {
        assert(k - spot0 == within - px * 8);
        assert((within - px * 8) % 4 == within % 4);
    }
    if in_second {
        assert(k - spot1 == within - px * 8);
        assert((within - px * 8) % 4 == within % 4);
    }
    assert(owner(k, pitch) == Some(px + py * RES_X) <==> (within < 5120 && row < 800 && within
        / 8 == px && row / 2 == py)) by {
        assert(SCALE * PIXEL == 8);
        assert(RES_Y * SCALE == 800);
    }
}

proof fn lemma_blit_pointwise(buf: Seq<u8>, pitch: int, cells: Seq<[u8; 4]>, n: int, k: int)
    requires
        pitch >= row_bytes(),
        0 <= n <= RES_X * RES_Y,
        0 <= k < buf.len(),
    ensures
        blit(buf, pitch, cells, n).len() == buf.len(),
        blit(buf, pitch, cells, n)[k] == match owner(k, pitch) {
            Some(p) => if p < n {
                cells[p]@[(k % pitch) % 4]
            } else {
                buf[k]
            },
            None => buf[k],
        },
    decreases n,
{
    if n > 0 {
        let p = n - 1;
        lemma_blit_pointwise(buf, pitch, cells, p, k);
        let before = blit(buf, pitch, cells, p);
        let px = p % (RES_X as int);
        let py = p / (RES_X as int);
        assert(px + py * RES_X == p);
        assert(RES_X * RES_Y == 256000);
        lemma_square(before, pitch, px, py, cells[p]@, k);
    }
}

/// The frame, pixel by pixel. Where the rows of the scaled frame do not run
/// into each other, the blit leaves in each byte of the framebuffer what the
/// frame's pixel for it holds: the byte `k % pitch % 4` of the pixel that
/// `owner` names, or what was there before if the byte shows no pixel.
pub proof fn lemma_frame_pointwise(buf: Seq<u8>, pitch: int, cells: Seq<[u8; 4]>)
    requires
        pitch >= row_bytes(),
    ensures
        blit(buf, pitch, cells, RES_X * RES_Y).len() == buf.len(),
        forall|k: int|
            0 <= k < buf.len() ==> #[trigger] blit(buf, pitch, cells, RES_X * RES_Y)[k]
                == match owner(k, pitch) {
                Some(p) => cells[p]@[(k % pitch) % 4],
                None => buf[k],
            },
{
    let out = blit(buf, pitch, cells, RES_X * RES_Y);
    assert(RES_X * RES_Y == 256000);
    assert(row_bytes() == 5120) by {
        assert(RES_X * SCALE == 1280);
    }
    lemma_blit_len(buf, pitch, cells, RES_X * RES_Y);
    assert forall|k: int| 0 <= k < buf.len() implies #[trigger] out[k] == match owner(k, pitch) {
        Some(p) => cells[p]@[(k % pitch) % 4],
        None => buf[k],
    } by {
        lemma_blit_pointwise(buf, pitch, cells, RES_X * RES_Y, k);
        lemma_div_pos_is_pos(k, pitch);
        lemma_mod_bound(k, pitch);
        assert(SCALE * PIXEL == 8);
        assert(RES_Y * SCALE == 800);
    }
}

proof fn lemma_blit_len(buf: Seq<u8>, pitch: int, cells: Seq<[u8; 4]>, n: int)
    ensures
        blit(buf, pitch, cells, n).len() == buf.len(),
    decreases n,
{
    if n > 0 {
        lemma_blit_len(buf, pitch, cells, n - 1);
        reveal_with_fuel(fill_rows, 3);
    }
}

/// Each pixel fills its square. Where the rows of the scaled frame do not
/// run into each other, the pixel at column `x` of row `y` of the frame
/// stands, after the blit, in the framebuffer pixels `(2x + dx, 2y + dy)`,
/// byte for byte: at offset `(2x + dx) * 4 + c + (2y + dy) * pitch`.
pub proof fn lemma_pixel_square(
    buf: Seq<u8>,
    pitch: int,
    cells: Seq<[u8; 4]>,
    x: int,
    y: int,
    dx: int,
    dy: int,
    c: int,
)
    requires
        pitch >= row_bytes(),
        0 <= x < RES_X,
        0 <= y < RES_Y,
        0 <= dx < SCALE,
        0 <= dy < SCALE,
        0 <= c < PIXEL,
        (x * SCALE + dx) * PIXEL + c + (y * SCALE + dy) * pitch < buf.len(),
    ensures
        blit(buf, pitch, cells, RES_X * RES_Y)[(x * SCALE + dx) * PIXEL + c + (y * SCALE + dy)
            * pitch] == cells[x + y * RES_X]@[c],
{
    let within = (x * 2 + dx) * 4 + c;
    let row = y * 2 + dy;
    let k = within + row * pitch;
    assert(row_bytes() == 5120) by {
        assert(RES_X * SCALE == 1280);
    }
    assert(SCALE * PIXEL == 8);
    assert(RES_Y * SCALE == 800);
    assert(k == (x * SCALE + dx) * PIXEL + c + (y * SCALE + dy) * pitch);
    assert(0 <= row * pitch) by (nonlinear_arith)
        requires
            0 <= row,
            0 <= pitch,
    ;
    lemma_fundamental_div_mod_converse(k, pitch, row, within);
    lemma_frame_pointwise(buf, pitch, cells);
    assert(owner(k, pitch) == Some(x + y * RES_X));
}

} // verus!
