//! Join tickets and recovery codes as pictures.
//!
//! A string is encoded by the `qrcode` crate and painted here: black on white,
//! every module a square of whole pixels, with a quiet zone of four modules all
//! around.

use vstd::prelude::*;
use vstd::string::*;
use vstd::utf8::encode_utf8;

verus! {

/// A square of dark and light modules, row by row.
pub struct QrModules {
    pub width: usize,
    pub dark: Vec<bool>,
}

/// What [`QrModules`] say.
pub struct QrModel {
    pub width: nat,
    pub dark: Seq<bool>,
}

impl View for QrModules {
    type V = QrModel;

    open spec fn view(&self) -> QrModel {
        QrModel { width: self.width as nat, dark: self.dark@ }
    }
}

impl QrModel {
    /// As many modules as the width asks for, and no wider than a code gets.
    pub open spec fn wf(self) -> bool {
        1 <= self.width <= 177 && self.dark.len() == self.width * self.width
    }
}

/// The version of the smallest QR code, at the medium level of error correction,
/// into which `data` is encoded; none if it is encoded into none.
pub uninterp spec fn qr_version(data: Seq<u8>) -> Option<nat>;

/// The width of the QR code for `data`, and which of its modules are dark.
pub uninterp spec fn qr_code(data: Seq<u8>) -> (nat, Seq<bool>);

/// The number of modules to a side of a code.
pub open spec fn version_width(version: nat) -> nat {
    4 * version + 17
}

/// The greatest version that is drawn.
///
/// The `qrcode` crate compares masks by a penalty score and adds the score up in
/// 16 bits. At this version, with 69 modules to a side, no code can exceed them: a
/// row or column scores at most 366 for runs and finder-like patterns together (at
/// most nine such patterns fit, at 40 each), which makes 2 * 69 * 366 = 50,508 in
/// both directions; blocks score at most 3 * 68 * 68 = 13,872 and the balance of
/// dark and light at most 100. That is 64,480, and the limit is 65,535. No such
/// count is known for wider codes, so a string that needs one gets no picture. This
/// version holds 331 bytes of arbitrary text.
pub const MAX_VERSION: u32 = 13;

/// Calls `qrcode::bits::encode_auto` at the medium level of error correction, with
/// which `qrcode::QrCode::new` begins, and takes the version of what it makes: a
/// normal one, from 1 to 40.
#[verifier::external_body]
fn version_of(data: &[u8]) -> (r: Option<u32>)
    ensures
        match r {
            Some(v) => qr_version(data@) == Some(v as nat) && 1 <= v <= 40,
            None => qr_version(data@) is None,
        },
{
    match qrcode::bits::encode_auto(data, qrcode::EcLevel::M) {
        Ok(bits) => match bits.version() {
            qrcode::Version::Normal(v) => Some(v as u32),
            qrcode::Version::Micro(_) => None,
        },
        Err(_) => None,
    }
}

/// Calls `qrcode::QrCode::new`, and `width` and `to_colors` on the code that it
/// makes: a square whose side belongs to the version, listed row by row. Where the
/// data is encoded at all, the code is made; that its penalty scores cannot
/// overflow is said at [`MAX_VERSION`].
#[verifier::external_body]
fn encode(data: &[u8]) -> (r: QrModules)
    requires
        qr_version(data@) matches Some(v) && 1 <= v <= MAX_VERSION,
    ensures
        qr_code(data@) == (r@.width, r@.dark),
        r@.width == version_width(qr_version(data@)->0),
        r@.dark.len() == r@.width * r@.width,
{
    let code = qrcode::QrCode::new(data).expect("data has a version");
    QrModules {
        width: code.width(),
        dark: code.to_colors().into_iter().map(|c| c == qrcode::Color::Dark).collect(),
    }
}

/// How many modules of quiet zone there are on each side.
pub const QUIET: usize = 4;

/// The number of modules to a side of the picture, quiet zone and all.
pub open spec fn modules(width: nat) -> nat {
    width + 2 * QUIET as nat
}

/// The number of pixels to a side of a module: as many as fit in 240 pixels for
/// the whole picture, but at least two.
pub open spec fn scale(width: nat) -> nat {
    if 240nat / modules(width) < 2 {
        2
    } else {
        240nat / modules(width)
    }
}

/// The number of pixels to a side of the picture.
pub open spec fn side(width: nat) -> nat {
    modules(width) * scale(width)
}

/// Whether the pixel in row `y` and column `x` of the picture is dark.
pub open spec fn is_dark(q: QrModel, y: int, x: int) -> bool {
    let my = y / scale(q.width) as int - QUIET;
    let mx = x / scale(q.width) as int - QUIET;
    0 <= my < q.width && 0 <= mx < q.width && q.dark[my * q.width + mx]
}

/// The byte at position `k` of the picture: three to a pixel, the pixels row by
/// row, black or white.
pub open spec fn picture_byte(q: QrModel, k: int) -> u8 {
    if is_dark(q, k / 3 / side(q.width) as int, k / 3 % side(q.width) as int) {
        0
    } else {
        255
    }
}

/// The bytes of the picture.
pub open spec fn painted(q: QrModel) -> Seq<u8> {
    Seq::new(side(q.width) * side(q.width) * 3, |k: int| picture_byte(q, k))
}

/// A square picture, three bytes (red, green, blue) to a pixel, row by row.
pub struct QrPicture {
    pub side: usize,
    pub pixels: Vec<u8>,
}

/// The picture is between 18 and 370 pixels to a side.
proof fn lemma_side(width: nat)
    requires
        1 <= width <= 177,
    ensures
        2 <= scale(width) <= 26,
        18 <= side(width) <= 370,
{
    let m = modules(width);
    if 240nat / m < 2 {
        assert(m * 2 <= 370);
    } else {
        assert(m * (240nat / m) <= 240) by (nonlinear_arith)
            requires
                m > 0,
        ;
        assert(m * (240nat / m) >= 9 * 2) by (nonlinear_arith)
            requires
                m >= 9,
                240nat / m >= 2,
        ;
        assert(240nat / m <= 26) by (nonlinear_arith)
            requires
                m >= 9,
        ;
    }
}

/// Paint a code.
pub fn paint(q: &QrModules) -> (r: QrPicture)
    requires
        q@.wf(),
    ensures
        r.side == side(q@.width),
        r.pixels@ == painted(q@),
{
    proof {
        lemma_side(q@.width);
    }
    let total: usize = q.width + 2 * QUIET;
    let fit: usize = 240 / total;
    let step: usize = if fit < 2 {
        2
    } else {
        fit
    };
    assert(step == scale(q@.width));
    assert(total * step == side(q@.width));
    let dim: usize = total * step;
    let mut pixels: Vec<u8> = Vec::new();
    let mut y: usize = 0;
    while y < dim
        invariant
            q@.wf(),
            step == scale(q@.width),
            2 <= step,
            dim == side(q@.width),
            18 <= dim <= 370,
            y <= dim,
            pixels@.len() == y * dim * 3,
            forall|k: int| 0 <= k < pixels@.len() ==> #[trigger] pixels@[k] == picture_byte(q@, k),
        decreases dim - y,
    {
        let mut x: usize = 0;
        while x < dim
            invariant
                q@.wf(),
                step == scale(q@.width),
                2 <= step,
                dim == side(q@.width),
                18 <= dim <= 370,
                y < dim,
                x <= dim,
                pixels@.len() == (y * dim + x) * 3,
                forall|k: int| 0 <= k < pixels@.len() ==> #[trigger] pixels@[k] == picture_byte(q@, k),
            decreases dim - x,
        {
            let row: usize = y / step;
            let col: usize = x / step;
            let mut dark = false;
            if QUIET <= row && row < q.width + QUIET && QUIET <= col && col < q.width + QUIET {
                proof {
                    lemma_module_index(row - QUIET, col - QUIET, q@.width as int);
                }
                dark = q.dark[(row - QUIET) * q.width + (col - QUIET)];
            }
            let shade: u8 = if dark {
                0
            } else {
                255
            };
            proof {
                let n = pixels@.len() as int;
                lemma_pixel_index(y as int, x as int, 0, dim as int, n);
                lemma_pixel_index(y as int, x as int, 1, dim as int, n + 1);
                lemma_pixel_index(y as int, x as int, 2, dim as int, n + 2);
                assert(picture_byte(q@, n) == shade);
                assert(picture_byte(q@, n + 1) == shade);
                assert(picture_byte(q@, n + 2) == shade);
            }
            pixels.push(shade);
            pixels.push(shade);
            pixels.push(shade);
            x = x + 1;
        }
        assert((y * dim + dim) * 3 == (y + 1) * dim * 3) by (nonlinear_arith);
        y = y + 1;
    }
    assert(pixels@ =~= painted(q@));
    QrPicture { side: dim, pixels }
}

/// A module in range has its place among the modules.
proof fn lemma_module_index(row: int, col: int, width: int)
    requires
        0 <= row < width <= 177,
        0 <= col < width,
    ensures
        0 <= row * width <= 177 * 177,
        0 <= row * width + col < width * width,
{
    assert(0 <= row * width <= 176 * 177 && row * width + width <= width * width) by (nonlinear_arith)
        requires
            0 <= row < width <= 177,
    ;
}

/// Row and column can be told from the position of a byte.
proof fn lemma_pixel_index(y: int, x: int, c: int, dim: int, k: int)
    requires
        0 <= y,
        0 <= x < dim,
        0 <= c < 3,
        k == (y * dim + x) * 3 + c,
    ensures
        k / 3 / dim == y,
        k / 3 % dim == x,
{
    let p = y * dim + x;
    assert(k / 3 == p);
    vstd::arithmetic::div_mod::lemma_fundamental_div_mod_converse(p, dim, y, x);
}

/// The ticket or recovery string as a picture of about 240 pixels to a side; none
/// if it fits in no QR code, or only in one above [`MAX_VERSION`].
pub fn qr_picture(data: &str) -> (r: Option<QrPicture>)
    ensures
        match qr_version(encode_utf8(data@)) {
            Some(v) if v <= MAX_VERSION => {
                let (width, dark) = qr_code(encode_utf8(data@));
                &&& width == version_width(v)
                &&& r matches Some(p) && p.side == side(width) && p.pixels@ == painted(
                    QrModel { width, dark },
                )
            },
            _ => r is None,
        },
{
    match version_of(data.as_bytes()) {
        Some(v) => {
            if v <= MAX_VERSION {
                Some(paint(&encode(data.as_bytes())))
            } else {
                None
            }
        },
        None => None,
    }
}

// ---------------------------------------------------------------------------
// Laws
// ---------------------------------------------------------------------------

/// The position of the first byte of a pixel.
pub open spec fn pixel_at(width: nat, y: int, x: int) -> int {
    (y * side(width) + x) * 3
}

/// Every pixel is black or white, all three bytes alike, and black exactly where
/// its module is dark.
pub proof fn law_pixels_show_the_modules(q: QrModel, y: int, x: int)
    requires
        q.wf(),
        0 <= y < side(q.width),
        0 <= x < side(q.width),
    ensures
        0 <= pixel_at(q.width, y, x),
        pixel_at(q.width, y, x) + 2 < painted(q).len(),
        forall|c: int|
            0 <= c < 3 ==> #[trigger] painted(q)[pixel_at(q.width, y, x) + c] == if is_dark(q, y, x) {
                0u8
            } else {
                255u8
            },
{
    let d = side(q.width) as int;
    assert(0 <= (y * d + x) * 3 && (y * d + x) * 3 + 2 < d * d * 3) by (nonlinear_arith)
        requires
            0 <= y < d,
            0 <= x < d,
    ;
    assert forall|c: int| 0 <= c < 3 implies #[trigger] painted(q)[pixel_at(q.width, y, x) + c]
        == if is_dark(q, y, x) {
        0u8
    } else {
        255u8
    } by {
        lemma_pixel_index(y, x, c, d, pixel_at(q.width, y, x) + c);
    }
}

/// The quiet zone is white: nothing in the outermost modules of the picture is
/// dark.
pub proof fn law_quiet_zone_is_white(q: QrModel, y: int, x: int)
    requires
        q.wf(),
        0 <= y < side(q.width),
        0 <= x < side(q.width),
        y < QUIET * scale(q.width) || x < QUIET * scale(q.width) || y >= (QUIET + q.width) * scale(q.width)
            || x >= (QUIET + q.width) * scale(q.width),
    ensures
        !is_dark(q, y, x),
{
    lemma_side(q.width);
    let s = scale(q.width) as int;
    let w = q.width as int;
    assert(y < 4 * s ==> y / s < 4) by (nonlinear_arith)
        requires
            s > 0,
            y >= 0,
    ;
    assert(x < 4 * s ==> x / s < 4) by (nonlinear_arith)
        requires
            s > 0,
            x >= 0,
    ;
    assert(y >= (4 + w) * s ==> y / s >= 4 + w) by (nonlinear_arith)
        requires
            s > 0,
            y >= 0,
            w >= 0,
    ;
    assert(x >= (4 + w) * s ==> x / s >= 4 + w) by (nonlinear_arith)
        requires
            s > 0,
            x >= 0,
            w >= 0,
    ;
}

/// The code can be read off the picture: every pixel of the square of a module
/// is dark exactly if the module is.
pub proof fn law_modules_can_be_read_back(q: QrModel, my: int, mx: int, dy: int, dx: int)
    requires
        q.wf(),
        0 <= my < q.width,
        0 <= mx < q.width,
        0 <= dy < scale(q.width),
        0 <= dx < scale(q.width),
    ensures
        is_dark(q, (my + QUIET) * scale(q.width) + dy, (mx + QUIET) * scale(q.width) + dx) == q.dark[my
            * q.width + mx],
{
    lemma_side(q.width);
    let s = scale(q.width) as int;
    vstd::arithmetic::div_mod::lemma_fundamental_div_mod_converse(
        (my + QUIET) * s + dy,
        s,
        my + QUIET,
        dy,
    );
    vstd::arithmetic::div_mod::lemma_fundamental_div_mod_converse(
        (mx + QUIET) * s + dx,
        s,
        mx + QUIET,
        dx,
    );
}

/// The picture is a square of whole modules with a margin of four modules all
/// round, drawn as large as fits into 240 pixels, but with no fewer than two pixels
/// to a module.
pub proof fn law_picture_fills_its_frame(q: &QrModules, r: QrPicture)
    requires
        q@.wf(),
        call_ensures(paint, (q,), r),
    ensures
        r.pixels@.len() == r.side * r.side * 3,
        exists|s: nat|
            r.side == #[trigger] ((q.width + 8) * s) && s >= 2 && (s == 2 || (q.width + 8) * s <= 240)
                && (q.width + 8) * (s + 1) > 240,
{
    let m = modules(q@.width);
    let s = scale(q@.width);
    lemma_side(q@.width);
    assert(m == q.width + 8);
    assert(m * (240nat / m) <= 240 && m * (240nat / m + 1) > 240) by (nonlinear_arith)
        requires
            m > 0,
    ;
    if 240nat / m < 2 {
        assert(m * 3 > 240) by (nonlinear_arith)
            requires
                m * (240nat / m + 1) > 240,
                0 <= 240nat / m < 2,
                m > 0,
        ;
    }
    assert(r.side == (q.width + 8) * s);
    assert(painted(q@).len() == side(q@.width) * side(q@.width) * 3);
}

/// What a pixel shows: black, in all three colours, exactly if it lies in a dark
/// module of the code, which begins behind four modules of margin.
pub proof fn law_picture_shows_the_code(q: &QrModules, r: QrPicture, y: int, x: int, s: int, c: int)
    requires
        q@.wf(),
        call_ensures(paint, (q,), r),
        r.side == (q.width + 8) * s,
        0 <= y < r.side,
        0 <= x < r.side,
        0 <= c < 3,
    ensures
        s > 0,
        4 * s <= y < (4 + q.width) * s && 4 * s <= x < (4 + q.width) * s && q.dark@[(y / s - 4) * q.width
            + (x / s - 4)] ==> r.pixels@[(y * r.side + x) * 3 + c] == 0,
        4 * s <= y < (4 + q.width) * s && 4 * s <= x < (4 + q.width) * s && !q.dark@[(y / s - 4) * q.width
            + (x / s - 4)] ==> r.pixels@[(y * r.side + x) * 3 + c] == 255,
        y < 4 * s || y >= (4 + q.width) * s || x < 4 * s || x >= (4 + q.width) * s ==> r.pixels@[(y
            * r.side + x) * 3 + c] == 255,
{
    let w = q.width as int;
    lemma_side(q@.width);
    assert(s == scale(q@.width)) by (nonlinear_arith)
        requires
            (w + 8) * s == (w + 8) * scale(q@.width),
            w >= 1,
    ;
    law_pixels_show_the_modules(q@, y, x);
    assert(painted(q@)[pixel_at(q@.width, y, x) + c] == r.pixels@[(y * r.side + x) * 3 + c]);
    if y < 4 * s || y >= (4 + w) * s || x < 4 * s || x >= (4 + w) * s {
        law_quiet_zone_is_white(q@, y, x);
    } else {
        let my = y / s - 4;
        let mx = x / s - 4;
        assert(0 <= my < w && 0 <= mx < w) by (nonlinear_arith)
            requires
                my == y / s - 4,
                mx == x / s - 4,
                4 * s <= y < (4 + w) * s,
                4 * s <= x < (4 + w) * s,
                s > 0,
        ;
    }
}

/// A text whose code is of a version that is drawn gets the picture of that code;
/// a text whose code is wider than 69 modules, or that fits in no code, gets none.
pub proof fn law_small_codes_get_a_picture(data: &str, r: Option<QrPicture>)
    requires
        call_ensures(qr_picture, (data,), r),
    ensures
        qr_version(encode_utf8(data@)) is None ==> r is None,
        qr_version(encode_utf8(data@)) matches Some(v) ==> (4 * v + 17 > 69 ==> r is None),
        qr_version(encode_utf8(data@)) matches Some(v) ==> (4 * v + 17 <= 69 ==> {
            &&& qr_code(encode_utf8(data@)).0 == 4 * v + 17
            &&& r matches Some(p) && p.pixels@ == painted(
                QrModel {
                    width: qr_code(encode_utf8(data@)).0,
                    dark: qr_code(encode_utf8(data@)).1,
                },
            )
        }),
{
}

} // verus!
