//! X11 cursor files (libXcursor's "Xcur" format): picking the image chunk
//! to preview and turning its ARGB pixels into RGBA, then PNG.
//!
//! Layout: a 16-byte file header (magic, header size, version, number of
//! table entries), a table of 12-byte entries (type, subtype, position), then
//! chunks. An image chunk has a 16-byte chunk header and a 20-byte image
//! header (width, height, x hotspot, y hotspot, delay) before its pixels.
use vstd::prelude::*;

verus! {

/// Magic number "Xcur", little endian.
pub const XCURSOR_MAGIC: u32 = 0x72756358;

/// Table entry type of an image chunk.
pub const XCURSOR_IMAGE_TYPE: u32 = 0xfffd0002;

/// Little-endian 32-bit value at `off`.
pub open spec fn u32_le(b: Seq<u8>, off: int) -> nat {
    (b[off] + 256 * b[off + 1] + 65536 * b[off + 2] + 16777216 * b[off + 3]) as nat
}

pub open spec fn header_ok(b: Seq<u8>) -> bool {
    b.len() >= 16 && u32_le(b, 0) == XCURSOR_MAGIC
}

pub open spec fn ntoc(b: Seq<u8>) -> nat {
    u32_le(b, 12)
}

pub open spec fn toc_fits(b: Seq<u8>) -> bool {
    b.len() >= 16 + 12 * ntoc(b)
}

pub open spec fn entry_type(b: Seq<u8>, i: int) -> nat {
    u32_le(b, 16 + 12 * i)
}

pub open spec fn entry_subtype(b: Seq<u8>, i: int) -> nat {
    u32_le(b, 16 + 12 * i + 4)
}

pub open spec fn entry_pos(b: Seq<u8>, i: int) -> nat {
    u32_le(b, 16 + 12 * i + 8)
}

/// An image chunk with a nonzero nominal size whose headers lie in the file.
pub open spec fn is_candidate(b: Seq<u8>, i: int) -> bool {
    &&& entry_type(b, i) == XCURSOR_IMAGE_TYPE
    &&& entry_subtype(b, i) != 0
    &&& entry_pos(b, i) + 36 <= b.len()
}

/// Preference of a nominal size: the closer to 32, the higher.
pub open spec fn score(subtype: nat) -> int {
    if subtype >= 32 {
        32 - subtype
    } else {
        subtype - 32
    }
}

/// The preferred chunk among the first `k` table entries: (score, position),
/// the first of the best kept.
pub open spec fn best_upto(b: Seq<u8>, k: nat) -> Option<(int, nat)>
    decreases k,
{
    if k == 0 {
        None
    } else {
        let i = k - 1;
        let prev = best_upto(b, i as nat);
        if is_candidate(b, i) && (prev is None || score(entry_subtype(b, i)) > prev.unwrap().0) {
            Some((score(entry_subtype(b, i)), entry_pos(b, i)))
        } else {
            prev
        }
    }
}

proof fn lemma_best_pos(b: Seq<u8>, k: nat)
    ensures
        best_upto(b, k) matches Some(bb) ==> bb.1 + 36 <= b.len(),
    decreases k,
{
    if k > 0 {
        lemma_best_pos(b, (k - 1) as nat);
    }
}

/// The RGBA bytes of `n` ARGB32 pixels starting at `px`.
pub open spec fn rgba_of(b: Seq<u8>, px: int, n: nat) -> Seq<u8> {
    Seq::new(
        4 * n,
        |j: int|
            {
                let o = px + 4 * (j / 4);
                if j % 4 == 0 {
                    b[o + 2]
                } else if j % 4 == 1 {
                    b[o + 1]
                } else if j % 4 == 2 {
                    b[o]
                } else {
                    b[o + 3]
                }
            },
    )
}

/// What `xcursor_decode` returns: width, height and RGBA pixels of the
/// preferred image chunk.
pub open spec fn decode_spec(b: Seq<u8>) -> Option<(nat, nat, Seq<u8>)> {
    if !header_ok(b) || !toc_fits(b) {
        None
    } else {
        match best_upto(b, ntoc(b)) {
            None => None,
            Some(best) => {
                let pos = best.1 as int;
                let w = u32_le(b, pos + 16);
                let h = u32_le(b, pos + 20);
                if w == 0 || h == 0 || pos + 36 + 4 * (w * h) > b.len() {
                    None
                } else {
                    Some((w, h, rgba_of(b, pos + 36, w * h)))
                }
            },
        }
    }
}

/// The inputs on which the decoder's `i32` and `usize` arithmetic stays in
/// range: a table size, chunk positions and a pixel byte count that fit in a
/// `usize`, and no image entry with a nominal size in `[2^31, 2^31 + 32]`.
#[verifier::opaque]
pub open spec fn decode_arith_ok(b: Seq<u8>) -> bool {
    &&& header_ok(b) ==> 16 + 12 * ntoc(b) <= usize::MAX
    &&& header_ok(b) && toc_fits(b) ==> {
        &&& forall|i: int| 0 <= i < ntoc(b) ==> #[trigger] entry_in_range(b, i)
        &&& match best_upto(b, ntoc(b)) {
            Some(best) => {
                let w = u32_le(b, best.1 as int + 16);
                let h = u32_le(b, best.1 as int + 20);
                (w != 0 && h != 0) ==> best.1 + 36 + 4 * (w * h) <= usize::MAX
            },
            None => true,
        }
    }
}

/// Table entry `i` of an image chunk lies within a `usize` range, and a
/// candidate's nominal size is not one whose distance to 32 overflows `i32`.
pub open spec fn entry_in_range(b: Seq<u8>, i: int) -> bool {
    &&& entry_type(b, i) == XCURSOR_IMAGE_TYPE && entry_subtype(b, i) != 0 ==> entry_pos(b, i) + 36
        <= usize::MAX
    &&& is_candidate(b, i) ==> !(0x8000_0000 <= entry_subtype(b, i) <= 0x8000_0020)
}

/// A decoded cursor image.
pub struct CursorImage {
    pub width: u32,
    pub height: u32,
    /// `4 * width * height` bytes, row by row.
    pub rgba: Vec<u8>,
}

fn read_u32_le(b: &Vec<u8>, off: usize) -> (r: u64)
    requires
        off + 4 <= b.len(),
    ensures
        r == u32_le(b@, off as int),
        r < 0x1_0000_0000,
{
    (b[off] as u64) + 256 * (b[off + 1] as u64) + 65536 * (b[off + 2] as u64) + 16777216 * (b[off
        + 3] as u64)
}

fn score_exec(subtype: u64) -> (r: i64)
    requires
        subtype < 0x1_0000_0000,
    ensures
        r == score(subtype as nat),
{
    let x = subtype as i64;
    if x >= 32 {
        32 - x
    } else {
        x - 32
    }
}

/// Decodes the preferred image of an Xcursor file: the chunk whose nominal
/// size is closest to 32 (the first such one).
pub fn xcursor_decode(bytes: &Vec<u8>) -> (r: Option<CursorImage>)
    requires
        decode_arith_ok(bytes@),
    ensures
        r matches Some(img) ==> decode_spec(bytes@) == Some(
            (img.width as nat, img.height as nat, img.rgba@),
        ),
        r is None ==> decode_spec(bytes@) is None,
{
    proof {
        reveal(decode_arith_ok);
    }
    let b = bytes;
    let len = b.len();
    if len < 16 || read_u32_le(b, 0) != 0x72756358 {
        return None;
    }
    let n_toc = read_u32_le(b, 12);
    if (len as u64) < 16 + n_toc * 12 {
        return None;
    }
    let mut best: Option<(i64, u64)> = None;
    let mut i: u64 = 0;
    while i < n_toc
        invariant
            i <= n_toc == ntoc(b@),
            len == b.len(),
            header_ok(b@),
            toc_fits(b@),
            decode_arith_ok(b@),
            best matches Some(bb) ==> best_upto(b@, i as nat) == Some((bb.0 as int, bb.1 as nat)),
            best is None ==> best_upto(b@, i as nat) is None,
        decreases n_toc - i,
    {
        let off = (16 + i * 12) as usize;
        let ctype = read_u32_le(b, off);
        let subtype = read_u32_le(b, off + 4);
        let pos = read_u32_le(b, off + 8);
        if ctype == 0xfffd_0002 && subtype != 0 && pos + 36 <= len as u64 {
            assert(is_candidate(b@, i as int));
            let s = score_exec(subtype);
            let better = match best {
                None => true,
                Some(bb) => s > bb.0,
            };
            if better {
                best = Some((s, pos));
            }
        }
        i += 1;
    }
    let pos = match best {
        None => {
            return None;
        },
        Some(bb) => bb.1,
    };
    proof {
        lemma_best_pos(b@, ntoc(b@));
    }
    assert(pos + 36 <= len);
    let width = read_u32_le(b, (pos + 16) as usize);
    let height = read_u32_le(b, (pos + 20) as usize);
    if width == 0 || height == 0 {
        return None;
    }
    let n = width * height;
    assert(width * height == u32_le(b@, pos + 16) * u32_le(b@, pos + 20));
    let px = (pos + 36) as usize;
    if px as u64 + n * 4 > len as u64 {
        return None;
    }
    let n = n as usize;
    let mut rgba: Vec<u8> = Vec::new();
    let mut k: usize = 0;
    while k < n
        invariant
            k <= n,
            px + 4 * n <= b.len(),
            rgba@ == rgba_of(b@, px as int, k as nat),
        decreases n - k,
    {
        let o = px + 4 * k;
        rgba.push(b[o + 2]);
        rgba.push(b[o + 1]);
        rgba.push(b[o]);
        rgba.push(b[o + 3]);
        proof {
            let want = rgba_of(b@, px as int, (k + 1) as nat);
            assert forall|j: int| 0 <= j < 4 * (k + 1) implies rgba@[j] == want[j] by {
                if j < 4 * k {
                    assert(rgba_of(b@, px as int, k as nat)[j] == want[j]);
                } else {
                    assert(j / 4 == k);
                }
            }
            assert(rgba@ =~= want);
        }
        k += 1;
    }
    Some(CursorImage { width: width as u32, height: height as u32, rgba })
}

fn toc_entry(b: &Vec<u8>, i: u64) -> (r: (u64, u64, u64))
    requires
        header_ok(b@),
        toc_fits(b@),
        i < ntoc(b@),
        16 + 12 * ntoc(b@) <= usize::MAX,
    ensures
        r.0 == entry_type(b@, i as int),
        r.1 == entry_subtype(b@, i as int),
        r.2 == entry_pos(b@, i as int),
        r.0 < 0x1_0000_0000 && r.1 < 0x1_0000_0000 && r.2 < 0x1_0000_0000,
{
    let off = (16 + i * 12) as usize;
    (read_u32_le(b, off), read_u32_le(b, off + 4), read_u32_le(b, off + 8))
}

/// One table entry of the range check: `None` when entry `i` is out of
/// range, else the preferred chunk among the first `i + 1` entries.
fn range_step(b: &Vec<u8>, i: u64, best: Option<(i64, u64)>) -> (r: Option<Option<(i64, u64)>>)
    requires
        header_ok(b@),
        toc_fits(b@),
        i < ntoc(b@),
        16 + 12 * ntoc(b@) <= usize::MAX,
        best matches Some(bb) ==> best_upto(b@, i as nat) == Some((bb.0 as int, bb.1 as nat)),
        best is None ==> best_upto(b@, i as nat) is None,
    ensures
        r is None ==> !entry_in_range(b@, i as int),
        r matches Some(nb) ==> entry_in_range(b@, i as int) && (nb matches Some(bb) ==> best_upto(
            b@,
            (i + 1) as nat,
        ) == Some((bb.0 as int, bb.1 as nat))) && (nb is None ==> best_upto(b@, (i + 1) as nat) is None),
{
    let (ctype, subtype, pos) = toc_entry(b, i);
    if ctype == 0xfffd_0002 && subtype != 0 {
        if (pos as u128) + 36 > usize::MAX as u128 {
            return None;
        }
        if pos + 36 <= b.len() as u64 {
            assert(is_candidate(b@, i as int));
            if 0x8000_0000 <= subtype && subtype <= 0x8000_0020 {
                return None;
            }
            let s = score_exec(subtype);
            let better = match best {
                None => true,
                Some(bb) => s > bb.0,
            };
            if better {
                return Some(Some((s, pos)));
            }
        }
    }
    Some(best)
}

/// Without a table that fits, only the table size matters.
proof fn lemma_arith_outside(b: Seq<u8>)
    requires
        !(header_ok(b) && toc_fits(b) && 16 + 12 * ntoc(b) <= usize::MAX),
    ensures
        decode_arith_ok(b) == (header_ok(b) ==> 16 + 12 * ntoc(b) <= usize::MAX),
{
    reveal(decode_arith_ok);
}

/// With every table entry in range, only the chosen image's size matters.
proof fn lemma_arith_table(b: Seq<u8>)
    requires
        header_ok(b),
        toc_fits(b),
        16 + 12 * ntoc(b) <= usize::MAX,
        forall|j: int| 0 <= j < ntoc(b) ==> #[trigger] entry_in_range(b, j),
    ensures
        decode_arith_ok(b) == match best_upto(b, ntoc(b)) {
            Some(best) => {
                let w = u32_le(b, best.1 as int + 16);
                let h = u32_le(b, best.1 as int + 20);
                (w != 0 && h != 0) ==> best.1 + 36 + 4 * (w * h) <= usize::MAX
            },
            None => true,
        },
{
    reveal(decode_arith_ok);
}

proof fn lemma_out_of_range(b: Seq<u8>, i: int)
    requires
        header_ok(b),
        toc_fits(b),
        0 <= i < ntoc(b),
        !entry_in_range(b, i),
    ensures
        !decode_arith_ok(b),
{
    reveal(decode_arith_ok);
}

/// Whether the decoder's arithmetic stays in range on `bytes` (see
/// `decode_arith_ok`); callers test this before decoding a file.
pub fn decode_in_range(bytes: &Vec<u8>) -> (r: bool)
    ensures
        r == decode_arith_ok(bytes@),
{
    let b = bytes;
    let len = b.len();
    if len < 16 || read_u32_le(b, 0) != 0x72756358 {
        proof {
            lemma_arith_outside(b@);
        }
        return true;
    }
    let n_toc = read_u32_le(b, 12);
    if 16 + 12 * (n_toc as u128) > usize::MAX as u128 {
        proof {
            lemma_arith_outside(b@);
        }
        return false;
    }
    if (len as u64) < 16 + n_toc * 12 {
        proof {
            lemma_arith_outside(b@);
        }
        return true;
    }
    let mut best: Option<(i64, u64)> = None;
    let mut ok = true;
    let mut i: u64 = 0;
    while i < n_toc && ok
        invariant
            i <= n_toc == ntoc(b@),
            len == b.len(),
            header_ok(b@),
            toc_fits(b@),
            16 + 12 * ntoc(b@) <= usize::MAX,
            !ok ==> !decode_arith_ok(b@),
            ok ==> forall|j: int| 0 <= j < i ==> #[trigger] entry_in_range(b@, j),
            ok ==> (best matches Some(bb) ==> best_upto(b@, i as nat) == Some((bb.0 as int, bb.1 as nat))),
            ok ==> (best is None ==> best_upto(b@, i as nat) is None),
        decreases n_toc - i,
    {
        match range_step(b, i, best) {
            None => {
                proof {
                    lemma_out_of_range(b@, i as int);
                }
                ok = false;
            },
            Some(nb) => {
                best = nb;
            },
        }
        i += 1;
    }
    if !ok {
        return false;
    }
    proof {
        lemma_arith_table(b@);
    }
    match best {
        None => true,
        Some(bb) => {
            let pos = bb.1;
            proof {
                lemma_best_pos(b@, ntoc(b@));
            }
            let w = read_u32_le(b, (pos + 16) as usize);
            let h = read_u32_le(b, (pos + 20) as usize);
            if w != 0 && h != 0 {
                assert(w * h < 0x1_0000_0000_0000_0000) by (nonlinear_arith)
                    requires
                        w < 0x1_0000_0000,
                        h < 0x1_0000_0000,
                ;
                let wh: u128 = (w as u128) * (h as u128);
                let total: u128 = (pos as u128) + 36 + 4 * wh;
                total <= usize::MAX as u128
            } else {
                true
            }
        },
    }
}

/// The PNG bytes that `image` writes for an RGBA image of this size.
pub uninterp spec fn png_file(width: u32, height: u32, rgba: Seq<u8>) -> Option<Seq<u8>>;

/// `image::RgbaImage::from_raw` followed by `DynamicImage::write_to` in PNG
/// format, into memory. Claims: the result is the named `png_file` of the
/// arguments. The buffer must hold exactly `4 * width * height` bytes: a
/// longer one passes `from_raw` and then makes the PNG encoder panic on its
/// length check. The encoder's output itself is not described.
#[verifier::external_body]
fn encode_png(width: u32, height: u32, rgba: Vec<u8>) -> (r: Option<Vec<u8>>)
    requires
        rgba@.len() == 4 * width * height,
    ensures
        r matches Some(p) ==> png_file(width, height, rgba@) == Some(p@),
        r is None ==> png_file(width, height, rgba@) is None,
{
    let img = image::RgbaImage::from_raw(width, height, rgba)?;
    let mut out = std::io::Cursor::new(Vec::new());
    image::DynamicImage::ImageRgba8(img).write_to(&mut out, image::ImageFormat::Png).ok()?;
    Some(out.into_inner())
}

/// What `xcursor_to_png` returns: the PNG encoding of the decoded image.
pub open spec fn cursor_png_spec(b: Seq<u8>) -> Option<Seq<u8>> {
    match decode_spec(b) {
        Some(d) => png_file(d.0 as u32, d.1 as u32, d.2),
        None => None,
    }
}

/// Renders the preferred image of an Xcursor file as PNG bytes.
pub fn xcursor_to_png(bytes: &Vec<u8>) -> (r: Option<Vec<u8>>)
    requires
        decode_arith_ok(bytes@),
    ensures
        r matches Some(p) ==> cursor_png_spec(bytes@) == Some(p@),
        r is None ==> cursor_png_spec(bytes@) is None,
{
    match xcursor_decode(bytes) {
        None => None,
        Some(img) => {
            assert(img.rgba@.len() == 4 * img.width * img.height) by (nonlinear_arith)
                requires
                    img.rgba@.len() == 4 * ((img.width as nat) * (img.height as nat)),
            ;
            encode_png(img.width, img.height, img.rgba)
        },
    }
}

/// The image chunk chosen among the first `k` table entries is a candidate
/// whose nominal size is closest to 32:
/// no candidate scores higher, and every earlier candidate scores lower.
pub proof fn law_best_chunk(b: Seq<u8>, k: nat)
    ensures
        best_upto(b, k) matches Some(best) ==> exists|i: int|
            0 <= i < k && #[trigger] is_candidate(b, i) && best == (score(entry_subtype(b, i)), entry_pos(b, i))
                && forall|j: int| 0 <= j < i && #[trigger] is_candidate(b, j) ==> score(entry_subtype(b, j)) < best.0,
        best_upto(b, k) matches Some(best) ==> forall|j: int|
            0 <= j < k && #[trigger] is_candidate(b, j) ==> score(entry_subtype(b, j)) <= best.0,
        best_upto(b, k) is None ==> forall|j: int| 0 <= j < k ==> !#[trigger] is_candidate(b, j),
    decreases k,
{
    if k > 0 {
        law_best_chunk(b, (k - 1) as nat);
        let i = k - 1;
        let prev = best_upto(b, i as nat);
        if is_candidate(b, i) && (prev is None || score(entry_subtype(b, i)) > prev.unwrap().0) {
            let best = best_upto(b, k);
            assert(best == Some((score(entry_subtype(b, i)), entry_pos(b, i))));
            assert forall|j: int| 0 <= j < i && #[trigger] is_candidate(b, j) implies score(entry_subtype(b, j))
                < best.unwrap().0 by {
            }
        } else {
            if prev is None {
                assert forall|j: int| 0 <= j < k implies !#[trigger] is_candidate(b, j) by {
                }
            }
        }
    }
}


/// What `xcursor_decode` gives is the image of a candidate chunk whose
/// nominal size is nearest to 32 (distance `|size - 32|`): no candidate is
/// nearer, and every earlier candidate is farther (the first of the nearest
/// is taken).
pub proof fn law_decode_nearest_32(b: Seq<u8>)
    ensures
        decode_spec(b) matches Some(d) ==> exists|i: int|
            0 <= i < ntoc(b) && #[trigger] is_candidate(b, i) && d.0 == u32_le(b, entry_pos(b, i) as int + 16) && d.1
                == u32_le(b, entry_pos(b, i) as int + 20) && d.2 == rgba_of(b, entry_pos(b, i) as int + 36, d.0 * d.1) && (forall|
                j: int,
            |
                0 <= j < ntoc(b) && #[trigger] is_candidate(b, j) ==> (if entry_subtype(b, j) >= 32 {
                    entry_subtype(b, j) - 32
                } else {
                    32 - entry_subtype(b, j)
                }) >= (if entry_subtype(b, i) >= 32 {
                    entry_subtype(b, i) - 32
                } else {
                    32 - entry_subtype(b, i)
                })) && (forall|j: int|
                0 <= j < i && #[trigger] is_candidate(b, j) ==> (if entry_subtype(b, j) >= 32 {
                    entry_subtype(b, j) - 32
                } else {
                    32 - entry_subtype(b, j)
                }) > (if entry_subtype(b, i) >= 32 {
                    entry_subtype(b, i) - 32
                } else {
                    32 - entry_subtype(b, i)
                })),
{
    if decode_spec(b) is Some {
        law_best_chunk(b, ntoc(b));
        let best = best_upto(b, ntoc(b)).unwrap();
        let i = choose|i: int|
            0 <= i < ntoc(b) && #[trigger] is_candidate(b, i) && best == (score(entry_subtype(b, i)), entry_pos(
                b,
                i,
            )) && forall|j: int| 0 <= j < i && #[trigger] is_candidate(b, j) ==> score(entry_subtype(b, j)) < best.0;
        assert(is_candidate(b, i));
    }
}


/// Pixel `k` of an image is its ARGB32 word `p` (little-endian in the file)
/// in RGBA order: red `(p >> 16) & 0xff`, green `(p >> 8) & 0xff`, blue
/// `p & 0xff`, alpha `p >> 24`.
pub proof fn law_pixel_channels(b: Seq<u8>, px: int, n: nat, k: int)
    requires
        0 <= px,
        0 <= k < n,
        px + 4 * n <= b.len(),
    ensures
        rgba_of(b, px, n).len() == 4 * n,
        rgba_of(b, px, n)[4 * k] == (u32_le(b, px + 4 * k) / 65536) % 256,
        rgba_of(b, px, n)[4 * k + 1] == (u32_le(b, px + 4 * k) / 256) % 256,
        rgba_of(b, px, n)[4 * k + 2] == u32_le(b, px + 4 * k) % 256,
        rgba_of(b, px, n)[4 * k + 3] == u32_le(b, px + 4 * k) / 16777216,
{
    let o = px + 4 * k;
    let b0 = b[o] as int;
    let b1 = b[o + 1] as int;
    let b2 = b[o + 2] as int;
    let b3 = b[o + 3] as int;
    let p = u32_le(b, o) as int;
    assert(p == b0 + 256 * b1 + 65536 * b2 + 16777216 * b3);
    assert((4 * k) / 4 == k && (4 * k) % 4 == 0) by (nonlinear_arith);
    assert((4 * k + 1) / 4 == k && (4 * k + 1) % 4 == 1) by (nonlinear_arith);
    assert((4 * k + 2) / 4 == k && (4 * k + 2) % 4 == 2) by (nonlinear_arith);
    assert((4 * k + 3) / 4 == k && (4 * k + 3) % 4 == 3) by (nonlinear_arith);
    assert((p / 65536) % 256 == b2 && (p / 256) % 256 == b1 && p % 256 == b0 && p / 16777216 == b3) by (nonlinear_arith)
        requires
            p == b0 + 256 * b1 + 65536 * b2 + 16777216 * b3,
            0 <= b0 < 256,
            0 <= b1 < 256,
            0 <= b2 < 256,
            0 <= b3 < 256,
    ;
}

} // verus!
