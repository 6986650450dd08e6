//! The on-disk format of prepared pixel assets: an eight-byte magic that
//! names the pixel format, followed by exactly `width * height * 4` pixel
//! bytes.

use vstd::prelude::*;

use crate::bundle::{PixelFormat, PreparedBackground, PreparedEntry};
use crate::error::{AssetProblem, Error};

verus! {

/// The magic that opens an asset of `format`: `APRGBA1` or `APXRGB1`,
/// then a zero byte.
pub open spec fn magic_of(format: PixelFormat) -> Seq<u8> {
    match format {
        PixelFormat::Rgba8 => seq![0x41u8, 0x50u8, 0x52u8, 0x47u8, 0x42u8, 0x41u8, 0x31u8, 0x00u8],
        PixelFormat::Xrgb8888Le => seq![
            0x41u8,
            0x50u8,
            0x58u8,
            0x52u8,
            0x47u8,
            0x42u8,
            0x31u8,
            0x00u8,
        ],
    }
}

/// The number of pixel bytes of a `width` x `height` image.
pub open spec fn pixel_len(width: u32, height: u32) -> int {
    width * height * 4
}

/// The bytes of an asset of `format` holding `pixels`.
pub open spec fn encode_asset(format: PixelFormat, pixels: Seq<u8>) -> Seq<u8> {
    magic_of(format) + pixels
}

/// The pixels of `bytes` read as a `width` x `height` asset of `format`:
/// present when `bytes` is the magic of `format` followed by exactly the
/// right number of pixel bytes.
pub open spec fn decode_asset(bytes: Seq<u8>, format: PixelFormat, width: u32, height: u32) -> Option<
    Seq<u8>,
> {
    if bytes.len() == 8 + pixel_len(width, height) && bytes.take(8) == magic_of(format) {
        Some(bytes.skip(8))
    } else {
        None
    }
}

/// What reading `bytes` as the asset `entry` describes gives: its pixels,
/// or the problem that refuses it.
pub open spec fn asset_outcome(bytes: Seq<u8>, entry: PreparedEntry) -> Result<Seq<u8>, AssetProblem> {
    match decode_asset(bytes, entry.format, entry.width, entry.height) {
        Some(p) => Ok(p),
        None => Err(
            AssetProblem::Malformed { expected: pixel_len(entry.width, entry.height) as usize },
        ),
    }
}

/// What reading `bytes` as RGBA8 pixels of the asset `entry` describes
/// gives: as [`asset_outcome`], refusing assets of another format.
pub open spec fn pixels_outcome(bytes: Seq<u8>, entry: PreparedEntry) -> Result<Seq<u8>, AssetProblem> {
    match asset_outcome(bytes, entry) {
        Ok(p) => if entry.format == PixelFormat::Rgba8 {
            Ok(p)
        } else {
            Err(AssetProblem::NotRgba8)
        },
        Err(problem) => Err(problem),
    }
}

/// Pixels read from a prepared asset.
#[derive(Debug, Clone, PartialEq, Eq)]
pub struct PreparedPixels {
    pub bytes: Vec<u8>,
    pub width: u32,
    pub height: u32,
    pub format: PixelFormat,
}

fn magic(format: PixelFormat) -> (m: [u8; 8])
    ensures
        m@ == magic_of(format),
{
    let m: [u8; 8] = match format {
        PixelFormat::Rgba8 => [0x41, 0x50, 0x52, 0x47, 0x42, 0x41, 0x31, 0x00],
        PixelFormat::Xrgb8888Le => [0x41, 0x50, 0x58, 0x52, 0x47, 0x42, 0x31, 0x00],
    };
    assert(m@ =~= magic_of(format));
    m
}

/// Reads the pixels of a prepared asset whose file holds `bytes`, as
/// `background` describes it: `Error::Asset` (`Malformed`) unless `bytes`
/// is the magic of the entry's format followed by exactly
/// `width * height * 4` pixel bytes.
pub fn read_prepared_asset(background: &PreparedBackground, bytes: &[u8]) -> (res: Result<
    PreparedPixels,
    Error,
>)
    requires
        8 + pixel_len(background.width, background.height) <= usize::MAX,
    ensures
        res is Ok <==> decode_asset(bytes@, background.format, background.width, background.height)
            is Some,
        res matches Ok(p) ==> {
            &&& Some(p.bytes@) == decode_asset(
                bytes@,
                background.format,
                background.width,
                background.height,
            )
            &&& p.width == background.width
            &&& p.height == background.height
            &&& p.format == background.format
        },
        res matches Err(e) ==> e matches Error::Asset { path, problem } && path@
            == background.asset@ && problem == (AssetProblem::Malformed {
            expected: pixel_len(background.width, background.height) as usize,
        }),
        match res {
            Ok(p) => asset_outcome(bytes@, background@) == Ok::<Seq<u8>, AssetProblem>(p.bytes@),
            Err(e) => e matches Error::Asset { problem, .. } && asset_outcome(bytes@, background@)
                == Err::<Seq<u8>, AssetProblem>(problem),
        },
{
    let expected = background.width as usize * background.height as usize * 4;
    let m = magic(background.format);
    let mut ok = bytes.len() == 8 + expected;
    let mut i: usize = 0;
    while ok && i < 8
        invariant
            i <= 8,
            ok ==> bytes@.len() == 8 + expected,
            ok ==> forall|j: int| 0 <= j < i ==> bytes@[j] == m@[j],
            !ok ==> decode_asset(bytes@, background.format, background.width, background.height)
                is None,
            m@ == magic_of(background.format),
            expected == pixel_len(background.width, background.height),
        decreases 8 - i + (if ok { 1int } else { 0int }),
    {
        if bytes[i] != m[i] {
            ok = false;
            assert(bytes@.take(8)[i as int] != magic_of(background.format)[i as int]);
        } else {
            i = i + 1;
        }
    }
    if !ok {
        return Err(
            Error::Asset {
                path: background.asset.clone(),
                problem: AssetProblem::Malformed { expected },
            },
        );
    }
    assert(bytes@.take(8) =~= magic_of(background.format));
    let mut pixels: Vec<u8> = Vec::new();
    let n = bytes.len();
    let mut k: usize = 8;
    while k < n
        invariant
            8 <= k <= n,
            n == bytes@.len(),
            pixels@ == bytes@.subrange(8, k as int),
        decreases n - k,
    {
        pixels.push(bytes[k]);
        k = k + 1;
        assert(pixels@ =~= bytes@.subrange(8, k as int));
    }
    assert(pixels@ =~= bytes@.skip(8));
    Ok(PreparedPixels {
        bytes: pixels,
        width: background.width,
        height: background.height,
        format: background.format,
    })
}

/// Reads the RGBA8 pixels of a prepared asset whose file holds `bytes`: as
/// [`read_prepared_asset`], and `Error::Asset` (`NotRgba8`) where the entry
/// is of another format.
pub fn read_prepared_pixels(background: &PreparedBackground, bytes: &[u8]) -> (res: Result<
    Vec<u8>,
    Error,
>)
    requires
        8 + pixel_len(background.width, background.height) <= usize::MAX,
    ensures
        res is Ok <==> decode_asset(bytes@, background.format, background.width, background.height)
            is Some && background.format == PixelFormat::Rgba8,
        res matches Ok(p) ==> Some(p@) == decode_asset(
            bytes@,
            background.format,
            background.width,
            background.height,
        ),
        res matches Err(e) ==> e matches Error::Asset { path, problem } && path@
            == background.asset@ && problem == if decode_asset(
            bytes@,
            background.format,
            background.width,
            background.height,
        ) is None {
            AssetProblem::Malformed {
                expected: pixel_len(background.width, background.height) as usize,
            }
        } else {
            AssetProblem::NotRgba8
        },
        match res {
            Ok(p) => pixels_outcome(bytes@, background@) == Ok::<Seq<u8>, AssetProblem>(p@),
            Err(e) => e matches Error::Asset { problem, .. } && pixels_outcome(bytes@, background@)
                == Err::<Seq<u8>, AssetProblem>(problem),
        },
{
    let prepared = read_prepared_asset(background, bytes)?;
    if prepared.format != PixelFormat::Rgba8 {
        return Err(
            Error::Asset { path: background.asset.clone(), problem: AssetProblem::NotRgba8 },
        );
    }
    Ok(prepared.bytes)
}

/// The bytes of an asset of `format` holding `pixels`, or `Error::Asset`
/// (`WrongLength`) where `pixels` is not `width * height * 4` bytes long.
fn write_prepared_bytes(
    path: &str,
    pixels: &[u8],
    width: u32,
    height: u32,
    format: PixelFormat,
) -> (res: Result<Vec<u8>, Error>)
    requires
        pixel_len(width, height) <= usize::MAX,
    ensures
        res is Ok <==> pixels@.len() == pixel_len(width, height),
        res matches Ok(b) ==> b@ == encode_asset(format, pixels@),
        res matches Err(e) ==> e matches Error::Asset { path: p, problem } && p@ == path@
            && problem == (AssetProblem::WrongLength {
            got: pixels@.len() as usize,
            expected: pixel_len(width, height) as usize,
        }),
{
    let expected = width as usize * height as usize * 4;
    if pixels.len() != expected {
        return Err(
            Error::Asset {
                path: path.to_owned(),
                problem: AssetProblem::WrongLength { got: pixels.len(), expected },
            },
        );
    }
    let m = magic(format);
    let mut bytes: Vec<u8> = Vec::new();
    let mut i: usize = 0;
    while i < 8
        invariant
            i <= 8,
            bytes@ == m@.take(i as int),
        decreases 8 - i,
    {
        bytes.push(m[i]);
        i = i + 1;
        assert(bytes@ =~= m@.take(i as int));
    }
    let n = pixels.len();
    let mut k: usize = 0;
    while k < n
        invariant
            k <= n,
            n == pixels@.len(),
            bytes@ == m@ + pixels@.take(k as int),
        decreases n - k,
    {
        bytes.push(pixels[k]);
        k = k + 1;
        assert(bytes@ =~= m@ + pixels@.take(k as int));
    }
    assert(pixels@.take(n as int) =~= pixels@);
    Ok(bytes)
}

/// The bytes of an RGBA8 asset for the file at `path` holding `rgba`, or
/// `Error::Asset` (`WrongLength`, naming `path`) where `rgba` is not
/// `width * height * 4` bytes long.
pub fn write_prepared_pixels(path: &str, rgba: &[u8], width: u32, height: u32) -> (res: Result<
    Vec<u8>,
    Error,
>)
    requires
        pixel_len(width, height) <= usize::MAX,
    ensures
        res is Ok <==> rgba@.len() == pixel_len(width, height),
        res matches Ok(b) ==> b@ == encode_asset(PixelFormat::Rgba8, rgba@),
        res matches Err(e) ==> e matches Error::Asset { path: p, problem } && p@ == path@
            && problem == (AssetProblem::WrongLength {
            got: rgba@.len() as usize,
            expected: pixel_len(width, height) as usize,
        }),
{
    write_prepared_bytes(path, rgba, width, height, PixelFormat::Rgba8)
}

/// The bytes of an XRGB8888 (little-endian) asset for the file at `path`
/// holding `xrgb`, or `Error::Asset` (`WrongLength`, naming `path`) where
/// `xrgb` is not `width * height * 4` bytes long.
pub fn write_prepared_xrgb(path: &str, xrgb: &[u8], width: u32, height: u32) -> (res: Result<
    Vec<u8>,
    Error,
>)
    requires
        pixel_len(width, height) <= usize::MAX,
    ensures
        res is Ok <==> xrgb@.len() == pixel_len(width, height),
        res matches Ok(b) ==> b@ == encode_asset(PixelFormat::Xrgb8888Le, xrgb@),
        res matches Err(e) ==> e matches Error::Asset { path: p, problem } && p@ == path@
            && problem == (AssetProblem::WrongLength {
            got: xrgb@.len() as usize,
            expected: pixel_len(width, height) as usize,
        }),
{
    write_prepared_bytes(path, xrgb, width, height, PixelFormat::Xrgb8888Le)
}

/// Pixel `k` of `xrgb` is pixel `k` of `rgba` in XRGB8888 little-endian
/// order: blue, green, red, then zero.
pub open spec fn xrgb_pixel(rgba: Seq<u8>, xrgb: Seq<u8>, k: int) -> bool {
    &&& xrgb[4 * k] == rgba[4 * k + 2]
    &&& xrgb[4 * k + 1] == rgba[4 * k + 1]
    &&& xrgb[4 * k + 2] == rgba[4 * k]
    &&& xrgb[4 * k + 3] == 0
}

/// Converts RGBA8 pixels to XRGB8888 little-endian memory order. Trailing
/// bytes that do not make up a whole pixel are dropped.
pub fn rgba_to_xrgb8888_le(rgba: &[u8]) -> (xrgb: Vec<u8>)
    ensures
        xrgb@.len() == 4 * (rgba@.len() / 4),
        forall|k: int| 0 <= k < rgba@.len() / 4 ==> #[trigger] xrgb_pixel(rgba@, xrgb@, k),
        is_xrgb_of(rgba@, xrgb@),
        forall|i: int|
            0 <= i < xrgb@.len() ==> #[trigger] xrgb@[i] == if i % 4 == 0 {
                rgba@[i + 2]
            } else if i % 4 == 1 {
                rgba@[i]
            } else if i % 4 == 2 {
                rgba@[i - 2]
            } else {
                0u8
            },
{
    let pixels = rgba.len() / 4;
    assert(4 * pixels <= rgba@.len());
    let mut xrgb: Vec<u8> = Vec::new();
    let mut k: usize = 0;
    while k < pixels
        invariant
            pixels == rgba@.len() / 4,
            4 * pixels <= rgba@.len(),
            rgba@.len() <= usize::MAX,
            k <= pixels,
            xrgb@.len() == 4 * k,
            forall|j: int| 0 <= j < k ==> #[trigger] xrgb_pixel(rgba@, xrgb@, j),
        decreases pixels - k,
    {
        let p = 4 * k;
        let ghost before = xrgb@;
        xrgb.push(rgba[p + 2]);
        xrgb.push(rgba[p + 1]);
        xrgb.push(rgba[p]);
        xrgb.push(0);
        assert forall|j: int| 0 <= j < k + 1 implies #[trigger] xrgb_pixel(rgba@, xrgb@, j) by {
            if j < k {
                assert(xrgb_pixel(rgba@, before, j));
            }
        }
        k = k + 1;
    }
    assert forall|i: int| 0 <= i < xrgb@.len() implies #[trigger] xrgb@[i] == if i % 4 == 0 {
        rgba@[i + 2]
    } else if i % 4 == 1 {
        rgba@[i]
    } else if i % 4 == 2 {
        rgba@[i - 2]
    } else {
        0u8
    } by {
        let q = i / 4;
        assert(i == 4 * q + i % 4);
        assert(0 <= q < pixels);
        assert(xrgb_pixel(rgba@, xrgb@, q));
    }
    xrgb
}

} // verus!

verus! {

/// Reading back an asset written with the right number of pixel bytes, as
/// the same format and geometry, gives back exactly the pixels written.
pub proof fn prepared_asset_round_trips(format: PixelFormat, pixels: Seq<u8>, width: u32, height: u32)
    requires
        pixels.len() == pixel_len(width, height),
    ensures
        decode_asset(encode_asset(format, pixels), format, width, height) == Some(pixels),
{
    let b = encode_asset(format, pixels);
    assert(b.take(8) =~= magic_of(format));
    assert(b.skip(8) =~= pixels);
}

/// An asset that reads successfully is exactly the encoding of the pixels
/// read from it.
pub proof fn read_asset_is_its_encoding(bytes: Seq<u8>, format: PixelFormat, width: u32, height: u32)
    ensures
        decode_asset(bytes, format, width, height) matches Some(p) ==> encode_asset(format, p)
            == bytes,
{
    if let Some(p) = decode_asset(bytes, format, width, height) {
        assert(encode_asset(format, p) =~= bytes);
    }
}

/// Reading an RGBA8 asset's pixels agrees with reading the asset: both
/// succeed with the same pixels, or both fail with the same problem.
pub proof fn rgba_pixels_agree_with_asset(bytes: Seq<u8>, entry: PreparedEntry)
    requires
        entry.format == PixelFormat::Rgba8,
    ensures
        pixels_outcome(bytes, entry) == asset_outcome(bytes, entry),
{
}

/// An asset written in one pixel format is refused when read as the other.
pub proof fn asset_formats_are_told_apart(
    written: PixelFormat,
    read: PixelFormat,
    pixels: Seq<u8>,
    width: u32,
    height: u32,
)
    requires
        written != read,
    ensures
        decode_asset(encode_asset(written, pixels), read, width, height) is None,
{
    let b = encode_asset(written, pixels);
    assert(b.take(8)[2] == magic_of(written)[2]);
}

} // verus!

verus! {

/// `xrgb` is the XRGB8888 conversion of `rgba`: one converted pixel for each
/// whole pixel of `rgba`.
pub open spec fn is_xrgb_of(rgba: Seq<u8>, xrgb: Seq<u8>) -> bool {
    &&& xrgb.len() == 4 * (rgba.len() / 4)
    &&& forall|k: int| 0 <= k < rgba.len() / 4 ==> #[trigger] xrgb_pixel(rgba, xrgb, k)
}

/// The conversion ignores alpha: inputs that differ only in their alpha
/// bytes convert to the same output.
pub proof fn xrgb_conversion_ignores_alpha(
    rgba1: Seq<u8>,
    xrgb1: Seq<u8>,
    rgba2: Seq<u8>,
    xrgb2: Seq<u8>,
)
    requires
        is_xrgb_of(rgba1, xrgb1),
        is_xrgb_of(rgba2, xrgb2),
        rgba1.len() == rgba2.len(),
        forall|i: int| 0 <= i < rgba1.len() && i % 4 != 3 ==> #[trigger] rgba1[i] == rgba2[i],
    ensures
        xrgb1 == xrgb2,
{
    assert forall|i: int| 0 <= i < xrgb1.len() implies #[trigger] xrgb1[i] == xrgb2[i] by {
        let q = i / 4;
        assert(i == 4 * q + i % 4);
        assert(xrgb_pixel(rgba1, xrgb1, q));
        assert(xrgb_pixel(rgba2, xrgb2, q));
        assert(rgba1[4 * q] == rgba2[4 * q]);
        assert(rgba1[4 * q + 1] == rgba2[4 * q + 1]);
        assert(rgba1[4 * q + 2] == rgba2[4 * q + 2]);
    }
    assert(xrgb1 =~= xrgb2);
}

/// The conversion works pixel by pixel: converting whole pixels followed by
/// more pixels gives the conversion of the first followed by that of the
/// second.
pub proof fn xrgb_conversion_distributes_over_concatenation(
    rgba1: Seq<u8>,
    xrgb1: Seq<u8>,
    rgba2: Seq<u8>,
    xrgb2: Seq<u8>,
)
    requires
        rgba1.len() % 4 == 0,
        is_xrgb_of(rgba1, xrgb1),
        is_xrgb_of(rgba2, xrgb2),
    ensures
        is_xrgb_of(rgba1 + rgba2, xrgb1 + xrgb2),
{
    let r = rgba1 + rgba2;
    let x = xrgb1 + xrgb2;
    let n1 = rgba1.len() / 4;
    assert(rgba1.len() == 4 * n1);
    assert(r.len() / 4 == n1 + rgba2.len() / 4);
    assert forall|k: int| 0 <= k < r.len() / 4 implies #[trigger] xrgb_pixel(r, x, k) by {
        if k < n1 {
            assert(xrgb_pixel(rgba1, xrgb1, k));
        } else {
            let k2 = k - n1;
            assert(xrgb_pixel(rgba2, xrgb2, k2));
            assert(4 * k == 4 * n1 + 4 * k2);
        }
    }
}

} // verus!

verus! {

/// An asset is the eight bytes `APRGBA1\0` (65 80 82 71 66 65 49 0, RGBA8)
/// or `APXRGB1\0` (65 80 88 82 71 66 49 0, XRGB8888) followed by the
/// pixels, and it reads back exactly when it is that magic followed by
/// exactly `width * height * 4` bytes.
pub proof fn asset_layout_is_magic_then_pixels(
    bytes: Seq<u8>,
    format: PixelFormat,
    pixels: Seq<u8>,
    width: u32,
    height: u32,
)
    ensures
        ({
            let magic = match format {
                PixelFormat::Rgba8 => seq![65u8, 80u8, 82u8, 71u8, 66u8, 65u8, 49u8, 0u8],
                PixelFormat::Xrgb8888Le => seq![65u8, 80u8, 88u8, 82u8, 71u8, 66u8, 49u8, 0u8],
            };
            &&& encode_asset(format, pixels) == magic + pixels
            &&& decode_asset(bytes, format, width, height) is Some <==> (bytes.len() == 8 + width
                * height * 4 && bytes.take(8) == magic)
            &&& decode_asset(bytes, format, width, height) matches Some(p) ==> p == bytes.skip(8)
        }),
{
    let magic = match format {
        PixelFormat::Rgba8 => seq![65u8, 80u8, 82u8, 71u8, 66u8, 65u8, 49u8, 0u8],
        PixelFormat::Xrgb8888Le => seq![65u8, 80u8, 88u8, 82u8, 71u8, 66u8, 49u8, 0u8],
    };
    assert(magic =~= magic_of(format));
}

} // verus!
