//! Pictures: eight-bit RGB in portable network graphics, and the wallpaper cut out of one.

use vstd::prelude::*;

verus! {

/// The colour type of a picture whose samples are red, green and blue.
pub const RGB: u8 = 2;

/// The sizes and the samples agree: three bytes for each pixel, and at least one pixel.
pub open spec fn is_picture(w: u32, h: u32, rgb: Seq<u8>) -> bool {
    w > 0 && h > 0 && rgb.len() == w * h * 3
}

/// What `png::Encoder` writes for an eight-bit RGB picture.
pub uninterp spec fn png_bytes(w: u32, h: u32, rgb: Seq<u8>) -> Seq<u8>;

/// What `png::Decoder` reads as a picture's header: width, height, colour type and bit depth.
pub uninterp spec fn png_header(bytes: Seq<u8>) -> Option<(u32, u32, u8, u8)>;

/// What `png::Reader::next_frame` decodes of a picture: width, height and samples.
pub uninterp spec fn png_frame(bytes: Seq<u8>) -> Option<(u32, u32, Seq<u8>)>;

/// The header is that of an eight-bit RGB picture.
pub open spec fn is_rgb(header: Option<(u32, u32, u8, u8)>) -> bool {
    header matches Some(h) && h.2 == RGB && h.3 == 8
}

/// A picture that is certain to be decoded again: its rows are within the decoder's allowance of
/// memory, and its samples within any machine's addresses.
pub open spec fn is_moderate(w: u32, rgb: Seq<u8>) -> bool {
    w <= 0x100_0000 && rgb.len() <= 0x7FFF_FFFF
}

/// `png::Encoder` with eight-bit RGB: `write_header` refuses only a picture without pixels, and
/// `write_image_data` only samples of another length, so for a picture they succeed when they write
/// to memory. What they write is named.
#[verifier::external_body]
fn encode(w: u32, h: u32, rgb: &[u8]) -> (r: Option<Vec<u8>>)
    requires
        is_picture(w, h, rgb@),
    ensures
        r is Some,
        (r->0)@ == png_bytes(w, h, rgb@),
{
    let mut out: Vec<u8> = Vec::new();
    let mut encoder = png::Encoder::new(&mut out, w, h);
    encoder.set_color(png::ColorType::Rgb);
    encoder.set_depth(png::BitDepth::Eight);
    let mut writer = encoder.write_header().ok()?;
    writer.write_image_data(rgb).ok()?;
    drop(writer);
    Some(out)
}

/// `png::Decoder::read_info`: what it reads is named. On a machine with short addresses it may
/// refuse a header that it reads elsewhere. The header of an encoded picture says what was encoded.
#[verifier::external_body]
fn read_header(bytes: &[u8]) -> (r: Option<(u32, u32, u8, u8)>)
    ensures
        match r {
            Some(h) => png_header(bytes@) == Some(h),
            None => png_header(bytes@) is None || usize::BITS < 64,
        },
        forall|w: u32, h: u32, rgb: Seq<u8>|
            is_picture(w, h, rgb) && is_moderate(w, rgb) && bytes@ == #[trigger] png_bytes(
                w,
                h,
                rgb,
            ) ==> r == Some((w, h, RGB, 8u8)),
{
    let reader = png::Decoder::new(std::io::Cursor::new(bytes)).read_info().ok()?;
    let info = reader.info();
    Some((info.width, info.height, info.color_type as u8, info.bit_depth as u8))
}

/// `png::Reader::next_frame` into a buffer of `output_buffer_size`, cut to the frame's own size:
/// what it decodes is named. On a machine with short addresses it may refuse a frame that it
/// decodes elsewhere. A frame of eight-bit RGB has three bytes for each pixel, and an encoded
/// picture is decoded to what was encoded.
#[verifier::external_body]
fn read_frame(bytes: &[u8]) -> (r: Option<(u32, u32, Vec<u8>)>)
    ensures
        match r {
            Some(f) => png_frame(bytes@) == Some((f.0, f.1, f.2@)),
            None => png_frame(bytes@) is None || usize::BITS < 64,
        },
        r is Some && is_rgb(png_header(bytes@)) ==> (r->0).2@.len() == (r->0).0 * (r->0).1 * 3,
        forall|w: u32, h: u32, rgb: Seq<u8>|
            is_picture(w, h, rgb) && is_moderate(w, rgb) && bytes@ == #[trigger] png_bytes(
                w,
                h,
                rgb,
            ) ==> r is Some && (r->0).0 == w && (r->0).1 == h && (r->0).2@ == rgb,
{
    let mut reader = png::Decoder::new(std::io::Cursor::new(bytes)).read_info().ok()?;
    let mut buf = vec![0u8; reader.output_buffer_size()?];
    let frame = reader.next_frame(&mut buf).ok()?;
    buf.truncate(frame.buffer_size());
    Some((frame.width, frame.height, buf))
}

/// Why a picture cannot be encoded.
#[derive(Debug, Clone, Copy, PartialEq, Eq, Structural)]
pub enum EncodeError {
    /// It has no width.
    NoWidth,
    /// It has no height.
    NoHeight,
    /// The samples are not three for each pixel.
    WrongLength,
}

/// Encodes a picture.
pub fn encode_png(w: u32, h: u32, rgb: &[u8]) -> (r: Result<Vec<u8>, EncodeError>)
    ensures
        match r {
            Ok(b) => is_picture(w, h, rgb@) && b@ == png_bytes(w, h, rgb@),
            Err(EncodeError::NoWidth) => w == 0,
            Err(EncodeError::NoHeight) => w > 0 && h == 0,
            Err(EncodeError::WrongLength) => w > 0 && h > 0 && rgb@.len() != w * h * 3,
        },
{
    if w == 0 {
        return Err(EncodeError::NoWidth);
    }
    if h == 0 {
        return Err(EncodeError::NoHeight);
    }
    assert(0 <= w * h <= 0xFFFF_FFFF * 0xFFFF_FFFF) by (nonlinear_arith)
        requires
            0 <= w <= 0xFFFF_FFFF,
            0 <= h <= 0xFFFF_FFFF,
    ;
    let want: u128 = w as u128 * h as u128 * 3;
    if rgb.len() as u128 != want {
        return Err(EncodeError::WrongLength);
    }
    match encode(w, h, rgb) {
        Some(b) => Ok(b),
        None => Err(EncodeError::WrongLength),
    }
}

/// Why a picture cannot be read.
#[derive(Debug, Clone, Copy, PartialEq, Eq, Structural)]
pub enum ReadError {
    /// Its header cannot be read.
    Unreadable,
    /// It is not eight-bit RGB: its colour type and its bit depth.
    NotRgb(u8, u8),
    /// Its samples cannot be decoded.
    Undecodable,
}

/// What a header and a frame come to: the header's sizes and the frame's samples.
pub open spec fn picture(
    header: Option<(u32, u32, u8, u8)>,
    frame: Option<(u32, u32, Seq<u8>)>,
) -> Result<(u32, u32, Seq<u8>), ReadError> {
    match header {
        None => Err(ReadError::Unreadable),
        Some(h) => if h.2 != RGB || h.3 != 8 {
            Err(ReadError::NotRgb(h.2, h.3))
        } else {
            match frame {
                None => Err(ReadError::Undecodable),
                Some(f) => Ok((h.0, h.1, f.2)),
            }
        },
    }
}

/// What the result holds.
pub open spec fn shown(r: Result<(u32, u32, Vec<u8>), ReadError>) -> Result<
    (u32, u32, Seq<u8>),
    ReadError,
> {
    match r {
        Ok(p) => Ok((p.0, p.1, p.2@)),
        Err(e) => Err(e),
    }
}

/// What the frame holds.
pub open spec fn frame_view(f: Option<(u32, u32, Vec<u8>)>) -> Option<(u32, u32, Seq<u8>)> {
    match f {
        Some(f) => Some((f.0, f.1, f.2@)),
        None => None,
    }
}

/// Makes a picture of a header and a frame.
pub fn rgb_picture(header: Option<(u32, u32, u8, u8)>, frame: Option<(u32, u32, Vec<u8>)>) -> (r:
    Result<(u32, u32, Vec<u8>), ReadError>)
    ensures
        shown(r) == picture(header, frame_view(frame)),
{
    match header {
        None => Err(ReadError::Unreadable),
        Some(h) => if h.2 != RGB || h.3 != 8 {
            Err(ReadError::NotRgb(h.2, h.3))
        } else {
            match frame {
                None => Err(ReadError::Undecodable),
                Some(f) => Ok((h.0, h.1, f.2)),
            }
        },
    }
}

/// Reads a picture. One that [`encode_png`] wrote reads back, unless it is immoderately large.
pub fn read_rgb_png(bytes: &[u8]) -> (r: Result<(u32, u32, Vec<u8>), ReadError>)
    ensures
        usize::BITS >= 64 ==> shown(r) == picture(png_header(bytes@), png_frame(bytes@)),
        r is Ok ==> shown(r) == picture(png_header(bytes@), png_frame(bytes@)),
        forall|w: u32, h: u32, rgb: Seq<u8>|
            is_picture(w, h, rgb) && is_moderate(w, rgb) && bytes@ == #[trigger] png_bytes(
                w,
                h,
                rgb,
            ) ==> shown(r) == Ok::<(u32, u32, Seq<u8>), ReadError>((w, h, rgb)),
{
    let header = read_header(bytes);
    let frame = match header {
        Some(h) => if h.2 == RGB && h.3 == 8 {
            read_frame(bytes)
        } else {
            None
        },
        None => None,
    };
    rgb_picture(header, frame)
}

/// The wallpaper's width.
pub const WALLPAPER_W: u32 = 1920;

/// The wallpaper's height.
pub const WALLPAPER_H: u32 = 1200;

/// How many rows of a picture the wallpaper takes: its own height, or as many as there are.
pub open spec fn kept_rows(h: int) -> int {
    if h < WALLPAPER_H {
        h
    } else {
        WALLPAPER_H as int
    }
}

/// The first row that the wallpaper takes of a picture of height `h`: as many rows are cut above as
/// below.
pub open spec fn top_row(h: int) -> int {
    (h - kept_rows(h)) / 2
}

/// The samples of the rows that the wallpaper takes of a picture.
pub open spec fn centred(w: int, h: int, rgb: Seq<u8>) -> Seq<u8> {
    rgb.subrange(top_row(h) * (w * 3), (top_row(h) + kept_rows(h)) * (w * 3))
}

/// The rows in the middle of a picture, as many as the wallpaper is tall: how many, and their
/// samples.
pub fn centre_rows(w: u32, h: u32, rgb: &[u8]) -> (r: (u32, Vec<u8>))
    requires
        rgb@.len() == w * h * 3,
    ensures
        r.0 == kept_rows(h as int),
        r.1@ == centred(w as int, h as int, rgb@),
{
    let kept: u32 = if h < WALLPAPER_H {
        h
    } else {
        WALLPAPER_H
    };
    let top: u32 = (h - kept) / 2;
    let len: usize = rgb.len();
    let row: u64 = w as u64 * 3;
    proof {
        let (w, h, row, top, kept) = (w as int, h as int, row as int, top as int, kept as int);
        assert(w * h * 3 == h * row) by (nonlinear_arith)
            requires
                row == w * 3,
        ;
        assert((top + kept) * row <= h * row) by (nonlinear_arith)
            requires
                top + kept <= h,
                row >= 0,
        ;
        assert(0 <= top * row <= (top + kept) * row) by (nonlinear_arith)
            requires
                top >= 0,
                kept >= 0,
                row >= 0,
        ;
    }
    let start: usize = (top as u64 * row) as usize;
    let end: usize = ((top as u64 + kept as u64) * row) as usize;
    let mut out: Vec<u8> = Vec::new();
    let mut i: usize = start;
    while i < end
        invariant
            start <= i <= end <= rgb.len(),
            out@ == rgb@.subrange(start as int, i as int),
        decreases end - i,
    {
        out.push(rgb[i]);
        i = i + 1;
        assert(rgb@.subrange(start as int, i as int) =~= rgb@.subrange(start as int, i - 1).push(
            rgb@[i - 1],
        ));
    }
    (kept, out)
}

/// Cuts the wallpaper out of a picture: `None` where the picture is not as wide as the wallpaper,
/// or less tall.
pub fn wallpaper_rows(w: u32, h: u32, rgb: &[u8]) -> (r: Option<Vec<u8>>)
    requires
        rgb@.len() == w * h * 3,
    ensures
        match r {
            Some(v) => w == WALLPAPER_W && h >= WALLPAPER_H && v@ == wallpaper_samples(
                h as int,
                rgb@,
            ),
            None => w != WALLPAPER_W || h < WALLPAPER_H,
        },
{
    if w != WALLPAPER_W || h < WALLPAPER_H {
        return None;
    }
    let (_, rows) = centre_rows(w, h, rgb);
    Some(rows)
}

/// The samples of the wallpaper in a picture as wide as it, and at least as tall.
pub open spec fn wallpaper_samples(h: int, rgb: Seq<u8>) -> Seq<u8> {
    centred(WALLPAPER_W as int, h, rgb)
}

/// A row of the wallpaper is a row of the picture, moved up by the rows that are cut above it.
pub proof fn law_wallpaper_rows_are_rows_of_the_picture(h: int, rgb: Seq<u8>, y: int, x: int)
    requires
        h >= WALLPAPER_H,
        rgb.len() == h * 5760,
        0 <= y < WALLPAPER_H,
        0 <= x < 5760,
    ensures
        wallpaper_samples(h, rgb).len() == WALLPAPER_W * WALLPAPER_H * 3,
        0 <= (top_row(h) + y) * 5760 + x < rgb.len(),
        wallpaper_samples(h, rgb)[y * 5760 + x] == rgb[(top_row(h) + y) * 5760 + x],
{
}

/// Why there is no wallpaper.
#[derive(Debug, Clone, Copy, PartialEq, Eq, Structural)]
pub enum WallpaperError {
    /// The picture cannot be read.
    Read(ReadError),
    /// The picture is not as wide as the wallpaper, or less tall: its width and height.
    Size(u32, u32),
}

/// Makes the wallpaper out of a picture's samples.
pub fn wallpaper_of(w: u32, h: u32, rgb: &[u8]) -> (r: Result<Vec<u8>, WallpaperError>)
    requires
        rgb@.len() == w * h * 3,
    ensures
        match r {
            Ok(b) => w == WALLPAPER_W && h >= WALLPAPER_H && b@ == png_bytes(
                WALLPAPER_W,
                WALLPAPER_H,
                wallpaper_samples(h as int, rgb@),
            ),
            Err(e) => (w != WALLPAPER_W || h < WALLPAPER_H) && e == WallpaperError::Size(w, h),
        },
{
    match wallpaper_rows(w, h, rgb) {
        None => Err(WallpaperError::Size(w, h)),
        Some(rows) => {
            proof {
                assert(w * h * 3 == h * 5760) by (nonlinear_arith)
                    requires
                        w == 1920,
                ;
                law_wallpaper_rows_are_rows_of_the_picture(h as int, rgb@, 0, 0);
            }
            match encode_png(WALLPAPER_W, WALLPAPER_H, rows.as_slice()) {
                Ok(b) => Ok(b),
                Err(_) => Err(WallpaperError::Size(w, h)),
            }
        },
    }
}

/// What a wallpaper picture comes to.
pub open spec fn wallpaper(
    header: Option<(u32, u32, u8, u8)>,
    frame: Option<(u32, u32, Seq<u8>)>,
) -> Result<Seq<u8>, WallpaperError> {
    match picture(header, frame) {
        Err(e) => Err(WallpaperError::Read(e)),
        Ok(_) => {
            let f = frame->0;
            if f.0 != WALLPAPER_W || f.1 < WALLPAPER_H {
                Err(WallpaperError::Size(f.0, f.1))
            } else {
                Ok(png_bytes(WALLPAPER_W, WALLPAPER_H, wallpaper_samples(f.1 as int, f.2)))
            }
        },
    }
}

/// What the result holds.
pub open spec fn wallpaper_view(r: Result<Vec<u8>, WallpaperError>) -> Result<
    Seq<u8>,
    WallpaperError,
> {
    match r {
        Ok(b) => Ok(b@),
        Err(e) => Err(e),
    }
}

/// Makes the wallpaper out of an encoded picture.
pub fn wallpaper_png(bytes: &[u8]) -> (r: Result<Vec<u8>, WallpaperError>)
    ensures
        usize::BITS >= 64 ==> wallpaper_view(r) == wallpaper(png_header(bytes@), png_frame(bytes@)),
        r is Ok ==> wallpaper_view(r) == wallpaper(png_header(bytes@), png_frame(bytes@)),
{
    let header = read_header(bytes);
    match header {
        None => return Err(WallpaperError::Read(ReadError::Unreadable)),
        Some(h) => if h.2 != RGB || h.3 != 8 {
            return Err(WallpaperError::Read(ReadError::NotRgb(h.2, h.3)));
        },
    }
    match read_frame(bytes) {
        None => Err(WallpaperError::Read(ReadError::Undecodable)),
        Some(f) => wallpaper_of(f.0, f.1, f.2.as_slice()),
    }
}

/// A picture is read exactly where its header says eight bits of red, green and blue and its samples
/// can be decoded: the header's sizes and those samples.
pub proof fn law_only_an_rgb_picture_is_read(header: Option<(u32, u32, u8, u8)>, frame: Option<(u32, u32, Seq<u8>)>)
    ensures
        picture(header, frame) is Ok <==> header is Some && (header->0).2 == 2 && (header->0).3 == 8
            && frame is Some,
        picture(header, frame) matches Ok(p) ==> p.0 == (header->0).0 && p.1 == (header->0).1 && p.2 == (
        frame->0).2,
        header is None ==> picture(header, frame) == Err::<(u32, u32, Seq<u8>), ReadError>(
            ReadError::Unreadable,
        ),
{
}

/// A wallpaper has its published width and is no lower than its published height; as many rows are cut
/// off above as below, or one fewer.
pub proof fn law_a_wallpaper_is_cut_in_the_middle(
    header: Option<(u32, u32, u8, u8)>,
    frame: Option<(u32, u32, Seq<u8>)>,
    h: int,
)
    requires
        h >= 0,
    ensures
        wallpaper(header, frame) is Ok <==> picture(header, frame) is Ok && (frame->0).0 == 1920 && (
        frame->0).1 >= 1200,
        h >= 1200 ==> {
            let above = top_row(h);
            let below = h - 1200 - top_row(h);
            kept_rows(h) == 1200 && above >= 0 && (below == above || below == above + 1)
        },
        h < 1200 ==> kept_rows(h) == h && top_row(h) == 0,
{
}

} // verus!
