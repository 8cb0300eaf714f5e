//! Terminal capabilities: which terminal is running (from its environment),
//! image protocols (Kitty, iTerm2), image dimension parsing and
//! notification formatting.

use base64::Engine;
use vstd::prelude::*;
use vstd::string::*;
use vstd::utf8::*;

use crate::bytes::{find_from, find_subsequence};
use crate::keys::match_key::{ascii_lower, ci_eq, ci_eq_str, lower_char};
use crate::strs::{
    chars_of, contains_chars, dec_digits, dec_string, seq_find, split_at_byte, str_eq, byte_length,
};

verus! {

/// Image display protocol.
#[derive(Debug, Clone, Copy, PartialEq, Eq, Structural)]
pub enum ImageProtocol {
    Kitty,
    Iterm2,
}

/// Desktop notification protocol.
#[derive(Debug, Clone, Copy, PartialEq, Eq, Structural)]
pub enum NotifyProtocol {
    Bell,
    Osc9,
    Osc99,
}

/// Known terminal identifiers.
#[derive(Debug, Clone, Copy, PartialEq, Eq, Hash, Structural)]
pub enum TerminalId {
    Kitty,
    Ghostty,
    WezTerm,
    Iterm2,
    VsCode,
    Alacritty,
    TrueColor,
    Base,
}

/// Terminal capability details used for rendering and protocol selection.
#[derive(Debug, Clone, Copy)]
pub struct TerminalInfo {
    pub id: TerminalId,
    pub image_protocol: Option<ImageProtocol>,
    pub true_color: bool,
    pub hyperlinks: bool,
    pub notify_protocol: NotifyProtocol,
}

/// The largest character boundary of `b` at or below `i`.
pub open spec fn floor_boundary(b: Seq<u8>, i: int) -> int
    decreases i,
{
    if i <= 0 {
        0
    } else if is_char_boundary(b, i) {
        i
    } else {
        floor_boundary(b, i - 1)
    }
}

/// The bytes an image escape sequence starts with.
pub open spec fn image_prefix(p: ImageProtocol) -> Seq<u8> {
    match p {
        ImageProtocol::Kitty => seq![0x1bu8, 0x5fu8, 0x47u8],
        ImageProtocol::Iterm2 => seq![
            0x1bu8,
            0x5du8,
            0x31u8,
            0x33u8,
            0x33u8,
            0x37u8,
            0x3bu8,
            0x46u8,
            0x69u8,
            0x6cu8,
            0x65u8,
            0x3du8,
        ],
    }
}

/// Whether `line` shows an image under protocol `p`: the image sequence
/// occurs within its first 64 bytes (cut back to a character boundary).
pub open spec fn image_line(p: Option<ImageProtocol>, line: Seq<char>) -> bool {
    match p {
        None => false,
        Some(proto) => {
            let b = encode_utf8(line);
            let end = floor_boundary(b, if b.len() < 64 { b.len() as int } else { 64 });
            find_from(b.take(end), image_prefix(proto), 0) is Some
        },
    }
}

/// The escape sequence that raises a notification carrying `m`.
pub open spec fn notification_text(p: NotifyProtocol, m: Seq<char>) -> Seq<char> {
    match p {
        NotifyProtocol::Bell => seq!['\x07'],
        NotifyProtocol::Osc9 => seq!['\x1b', ']', '9', ';'] + m + seq!['\x1b', '\\'],
        NotifyProtocol::Osc99 => seq!['\x1b', ']', '9', '9', ';', ';'] + m + seq!['\x1b', '\\'],
    }
}

fn image_prefix_bytes(p: ImageProtocol) -> (v: Vec<u8>)
    ensures
        v@ == image_prefix(p),
{
    match p {
        ImageProtocol::Kitty => vec![0x1bu8, 0x5fu8, 0x47u8],
        ImageProtocol::Iterm2 => vec![
            0x1bu8,
            0x5du8,
            0x31u8,
            0x33u8,
            0x33u8,
            0x37u8,
            0x3bu8,
            0x46u8,
            0x69u8,
            0x6cu8,
            0x65u8,
            0x3du8,
        ],
    }
}

impl TerminalInfo {
    /// Whether a rendered line holds an image sequence (which always starts
    /// within its first 64 bytes).
    pub fn is_image_line(&self, line: &str) -> (r: bool)
        ensures
            r == image_line(self.image_protocol, line@),
    {
        let proto = match self.image_protocol {
            Some(p) => p,
            None => {
                return false;
            },
        };
        let bytes = line.as_bytes();
        let len = bytes.len();
        let mut end = if len < 64 {
            len
        } else {
            64
        };
        let ghost b = encode_utf8(line@);
        let ghost start = end as int;
        while end > 0 && !line.is_char_boundary(end)
            invariant
                b == encode_utf8(line@),
                end <= len == b.len(),
                floor_boundary(b, start) == floor_boundary(b, end as int),
            decreases end,
        {
            end = end - 1;
        }
        let prefix = image_prefix_bytes(proto);
        let head = &bytes[0..end];
        assert(head@ =~= b.take(floor_boundary(b, start)));
        find_subsequence(head, prefix.as_slice()).is_some()
    }

    /// The escape sequence that raises a notification in this terminal.
    pub fn format_notification(&self, message: &str) -> (r: String)
        ensures
            r@ == notification_text(self.notify_protocol, message@),
    {
        let mut s = String::new();
        match self.notify_protocol {
            NotifyProtocol::Bell => {
                s.push('\x07');
            },
            NotifyProtocol::Osc9 => {
                s.push('\x1b');
                s.push(']');
                s.push('9');
                s.push(';');
                s.append(message);
                s.push('\x1b');
                s.push('\\');
            },
            NotifyProtocol::Osc99 => {
                s.push('\x1b');
                s.push(']');
                s.push('9');
                s.push('9');
                s.push(';');
                s.push(';');
                s.append(message);
                s.push('\x1b');
                s.push('\\');
            },
        }
        assert(s@ =~= notification_text(self.notify_protocol, message@));
        s
    }
}

/// Capabilities of each known terminal.
pub open spec fn terminal_table(id: TerminalId) -> TerminalInfo {
    match id {
        TerminalId::Kitty => TerminalInfo {
            id,
            image_protocol: Some(ImageProtocol::Kitty),
            true_color: true,
            hyperlinks: true,
            notify_protocol: NotifyProtocol::Osc99,
        },
        TerminalId::Ghostty => TerminalInfo {
            id,
            image_protocol: Some(ImageProtocol::Kitty),
            true_color: true,
            hyperlinks: true,
            notify_protocol: NotifyProtocol::Osc9,
        },
        TerminalId::WezTerm => TerminalInfo {
            id,
            image_protocol: Some(ImageProtocol::Kitty),
            true_color: true,
            hyperlinks: true,
            notify_protocol: NotifyProtocol::Osc9,
        },
        TerminalId::Iterm2 => TerminalInfo {
            id,
            image_protocol: Some(ImageProtocol::Iterm2),
            true_color: true,
            hyperlinks: true,
            notify_protocol: NotifyProtocol::Osc9,
        },
        TerminalId::Base => TerminalInfo {
            id,
            image_protocol: None,
            true_color: false,
            hyperlinks: true,
            notify_protocol: NotifyProtocol::Bell,
        },
        _ => TerminalInfo {
            id,
            image_protocol: None,
            true_color: true,
            hyperlinks: true,
            notify_protocol: NotifyProtocol::Bell,
        },
    }
}

/// The capabilities of terminal `id`.
pub fn get_terminal_info(id: TerminalId) -> (r: TerminalInfo)
    ensures
        r == terminal_table(id),
{
    let (image_protocol, true_color, notify_protocol) = match id {
        TerminalId::Kitty => (Some(ImageProtocol::Kitty), true, NotifyProtocol::Osc99),
        TerminalId::Ghostty => (Some(ImageProtocol::Kitty), true, NotifyProtocol::Osc9),
        TerminalId::WezTerm => (Some(ImageProtocol::Kitty), true, NotifyProtocol::Osc9),
        TerminalId::Iterm2 => (Some(ImageProtocol::Iterm2), true, NotifyProtocol::Osc9),
        TerminalId::VsCode => (None, true, NotifyProtocol::Bell),
        TerminalId::Alacritty => (None, true, NotifyProtocol::Bell),
        TerminalId::TrueColor => (None, true, NotifyProtocol::Bell),
        TerminalId::Base => (None, false, NotifyProtocol::Bell),
    };
    TerminalInfo { id, image_protocol, true_color, hyperlinks: true, notify_protocol }
}

/// What terminal detection reads from the environment: whether each
/// terminal-specific variable is set to a non-empty value, and the values
/// of `TERM_PROGRAM`, `TERM` and `COLORTERM` where they are valid Unicode.
#[derive(Debug, Clone)]
pub struct TerminalEnv {
    pub kitty_window_id: bool,
    pub ghostty_resources_dir: bool,
    pub wezterm_pane: bool,
    pub iterm_session_id: bool,
    pub vscode_pid: bool,
    pub alacritty_window_id: bool,
    pub term_program: Option<String>,
    pub term: Option<String>,
    pub colorterm: Option<String>,
}

/// `v` is present and equal to `lit` up to ASCII case.
pub open spec fn opt_ci_eq(v: Option<String>, lit: Seq<char>) -> bool {
    match v {
        Some(s) => ci_eq(s@, lit),
        None => false,
    }
}

/// `s` with ASCII letters lowered.
pub open spec fn lower_seq(s: Seq<char>) -> Seq<char> {
    s.map_values(|c: char| ascii_lower(c))
}

/// The terminal that the environment `e` indicates.
pub open spec fn terminal_from_env(e: TerminalEnv) -> TerminalId {
    if e.kitty_window_id {
        TerminalId::Kitty
    } else if e.ghostty_resources_dir {
        TerminalId::Ghostty
    } else if e.wezterm_pane {
        TerminalId::WezTerm
    } else if e.iterm_session_id {
        TerminalId::Iterm2
    } else if e.vscode_pid {
        TerminalId::VsCode
    } else if e.alacritty_window_id {
        TerminalId::Alacritty
    } else if opt_ci_eq(e.term_program, "kitty"@) {
        TerminalId::Kitty
    } else if opt_ci_eq(e.term_program, "ghostty"@) {
        TerminalId::Ghostty
    } else if opt_ci_eq(e.term_program, "wezterm"@) {
        TerminalId::WezTerm
    } else if opt_ci_eq(e.term_program, "iterm.app"@) {
        TerminalId::Iterm2
    } else if opt_ci_eq(e.term_program, "vscode"@) {
        TerminalId::VsCode
    } else if opt_ci_eq(e.term_program, "alacritty"@) {
        TerminalId::Alacritty
    } else if e.term matches Some(t) && seq_find(lower_seq(t@), "ghostty"@, 0) is Some {
        TerminalId::Ghostty
    } else if opt_ci_eq(e.colorterm, "truecolor"@) || opt_ci_eq(e.colorterm, "24bit"@) {
        TerminalId::TrueColor
    } else {
        TerminalId::Base
    }
}

fn opt_ci_eq_str(v: &Option<String>, lit: &str) -> (r: bool)
    ensures
        r == opt_ci_eq(*v, lit@),
{
    match v {
        Some(s) => ci_eq_str(s.as_str(), lit),
        None => false,
    }
}

/// The characters of `s` with ASCII letters lowered.
pub fn lowercase_chars(s: &str) -> (r: Vec<char>)
    ensures
        r@ == lower_seq(s@),
{
    let v = chars_of(s);
    let mut r: Vec<char> = Vec::new();
    let mut i: usize = 0;
    while i < v.len()
        invariant
            v@ == s@,
            i <= v@.len(),
            r@ == lower_seq(s@.take(i as int)),
        decreases v@.len() - i,
    {
        r.push(lower_char(v[i]));
        i = i + 1;
        assert(r@ =~= lower_seq(s@.take(i as int)));
    }
    assert(s@.take(v@.len() as int) =~= s@);
    r
}

/// Detect the terminal from what its environment holds.
pub fn detect_terminal_id_from(e: &TerminalEnv) -> (r: TerminalId)
    ensures
        r == terminal_from_env(*e),
{
    if e.kitty_window_id {
        return TerminalId::Kitty;
    }
    if e.ghostty_resources_dir {
        return TerminalId::Ghostty;
    }
    if e.wezterm_pane {
        return TerminalId::WezTerm;
    }
    if e.iterm_session_id {
        return TerminalId::Iterm2;
    }
    if e.vscode_pid {
        return TerminalId::VsCode;
    }
    if e.alacritty_window_id {
        return TerminalId::Alacritty;
    }
    if opt_ci_eq_str(&e.term_program, "kitty") {
        return TerminalId::Kitty;
    }
    if opt_ci_eq_str(&e.term_program, "ghostty") {
        return TerminalId::Ghostty;
    }
    if opt_ci_eq_str(&e.term_program, "wezterm") {
        return TerminalId::WezTerm;
    }
    if opt_ci_eq_str(&e.term_program, "iterm.app") {
        return TerminalId::Iterm2;
    }
    if opt_ci_eq_str(&e.term_program, "vscode") {
        return TerminalId::VsCode;
    }
    if opt_ci_eq_str(&e.term_program, "alacritty") {
        return TerminalId::Alacritty;
    }
    if let Some(t) = &e.term {
        let lowered = lowercase_chars(t.as_str());
        let needle = chars_of("ghostty");
        if contains_chars(&lowered, &needle) {
            return TerminalId::Ghostty;
        }
    }
    if opt_ci_eq_str(&e.colorterm, "truecolor") || opt_ci_eq_str(&e.colorterm, "24bit") {
        return TerminalId::TrueColor;
    }
    TerminalId::Base
}

/// Whether the value of the notification switch turns notifications off.
pub fn notifications_suppressed(value: Option<&str>) -> (r: bool)
    ensures
        r == (value matches Some(v) && (v@ == "off"@ || v@ == "0"@ || v@ == "false"@)),
{
    match value {
        Some(v) => str_eq(v, "off") || str_eq(v, "0") || str_eq(v, "false"),
        None => false,
    }
}


/// Cell dimensions in pixels.
#[derive(Debug, Clone, Copy)]
pub struct CellDimensions {
    pub width_px: u32,
    pub height_px: u32,
}

impl Default for CellDimensions {
    fn default() -> (r: Self)
        ensures
            r.width_px == 9,
            r.height_px == 18,
    {
        CellDimensions { width_px: 9, height_px: 18 }
    }
}

/// Image dimensions in pixels.
#[derive(Debug, Clone, Copy)]
pub struct ImageDimensions {
    pub width_px: u32,
    pub height_px: u32,
}

/// Options for rendering images.
#[derive(Debug, Clone, Copy)]
pub struct ImageRenderOptions {
    pub max_width_cells: u32,
    pub max_height_cells: u32,
    pub preserve_aspect_ratio: bool,
}

impl Default for ImageRenderOptions {
    fn default() -> (r: Self)
        ensures
            r.max_width_cells == 80,
            r.max_height_cells == u32::MAX,
            r.preserve_aspect_ratio,
    {
        ImageRenderOptions { max_width_cells: 80, max_height_cells: u32::MAX, preserve_aspect_ratio: true }
    }
}

/// Big-endian value of two bytes.
pub open spec fn be16(a: u8, b: u8) -> nat {
    (a * 256 + b) as nat
}

/// Little-endian value of two bytes.
pub open spec fn le16(a: u8, b: u8) -> nat {
    (a + b * 256) as nat
}

/// Big-endian value of four bytes.
pub open spec fn be32(a: u8, b: u8, c: u8, d: u8) -> nat {
    (a * 16777216 + b * 65536 + c * 256 + d) as nat
}

/// Little-endian value of four bytes.
pub open spec fn le32(a: u8, b: u8, c: u8, d: u8) -> nat {
    (a + b * 256 + c * 65536 + d * 16777216) as nat
}

/// Little-endian value of three bytes.
pub open spec fn le24(a: u8, b: u8, c: u8) -> nat {
    (a + b * 256 + c * 65536) as nat
}

pub open spec fn dims(w: nat, h: nat) -> Option<(nat, nat)> {
    Some((w, h))
}

/// The (width, height) as a pair.
pub open spec fn dims_of(d: Option<ImageDimensions>) -> Option<(nat, nat)> {
    match d {
        Some(x) => Some((x.width_px as nat, x.height_px as nat)),
        None => None,
    }
}

/// PNG: the signature's first four bytes, then width and height as
/// big-endian words at offsets 16 and 20.
pub open spec fn png_dims(d: Seq<u8>) -> Option<(nat, nat)> {
    if d.len() < 24 || d[0] != 0x89 || d[1] != 0x50 || d[2] != 0x4e || d[3] != 0x47 {
        None
    } else {
        dims(be32(d[16], d[17], d[18], d[19]), be32(d[20], d[21], d[22], d[23]))
    }
}

/// JPEG: walk the segments from `off` to the first start-of-frame marker.
pub open spec fn jpeg_scan(d: Seq<u8>, off: int) -> Option<(nat, nat)>
    decreases d.len() + 65538 - off,
{
    if off < 0 || !(off + 9 < d.len()) {
        None
    } else if d[off] != 0xff {
        jpeg_scan(d, off + 1)
    } else if 0xc0 <= d[off + 1] <= 0xc2 {
        dims(be16(d[off + 7], d[off + 8]), be16(d[off + 5], d[off + 6]))
    } else if be16(d[off + 2], d[off + 3]) < 2 {
        None
    } else {
        jpeg_scan(d, off + 2 + be16(d[off + 2], d[off + 3]))
    }
}

/// JPEG: the start-of-image marker, then the segment walk.
pub open spec fn jpeg_dims(d: Seq<u8>) -> Option<(nat, nat)> {
    if d.len() < 2 || d[0] != 0xff || d[1] != 0xd8 {
        None
    } else {
        jpeg_scan(d, 2)
    }
}

/// GIF: `GIF87a` or `GIF89a`, then width and height as little-endian
/// half-words.
pub open spec fn gif_dims(d: Seq<u8>) -> Option<(nat, nat)> {
    if d.len() < 10 || d[0] != 0x47 || d[1] != 0x49 || d[2] != 0x46 || d[3] != 0x38 || !(d[4]
        == 0x37 || d[4] == 0x39) || d[5] != 0x61 {
        None
    } else {
        dims(le16(d[6], d[7]), le16(d[8], d[9]))
    }
}

/// WebP: `RIFF....WEBP`, then a `VP8 `, `VP8L` or `VP8X` chunk.
pub open spec fn webp_dims(d: Seq<u8>) -> Option<(nat, nat)> {
    if d.len() < 30 || d[0] != 0x52 || d[1] != 0x49 || d[2] != 0x46 || d[3] != 0x46 || d[8]
        != 0x57 || d[9] != 0x45 || d[10] != 0x42 || d[11] != 0x50 || d[12] != 0x56 || d[13]
        != 0x50 || d[14] != 0x38 {
        None
    } else if d[15] == 0x20 {
        dims(le16(d[26], d[27]) % 16384, le16(d[28], d[29]) % 16384)
    } else if d[15] == 0x4c {
        let bits = le32(d[21], d[22], d[23], d[24]);
        dims(bits % 16384 + 1, (bits / 16384) % 16384 + 1)
    } else if d[15] == 0x58 {
        dims(le24(d[24], d[25], d[26]) + 1, le24(d[27], d[28], d[29]) + 1)
    } else {
        None
    }
}

/// A JPEG whose first segment is its frame header (the start-of-image
/// marker `FF D8`, then a start-of-frame marker `FF C0` to `FF C2`) is as
/// wide as the big-endian half-word at offset 9 and as high as the one at
/// offset 7: the frame header holds its length, the sample precision, the
/// height, and then the width.
pub proof fn law_jpeg_frame_first(d: Seq<u8>)
    requires
        d.len() > 11,
        d[0] == 0xff,
        d[1] == 0xd8,
        d[2] == 0xff,
        0xc0 <= d[3] <= 0xc2,
    ensures
        jpeg_dims(d) == Some(((d[9] * 256 + d[10]) as nat, (d[7] * 256 + d[8]) as nat)),
{
}

/// Whatever size is read from a JPEG, it comes from a start-of-frame header
/// at some offset `o` after the start-of-image marker: the width is the
/// big-endian half-word at `o + 7` and the height the one at `o + 5`.
pub proof fn law_jpeg_size_from_frame_header(d: Seq<u8>)
    ensures
        jpeg_dims(d) matches Some((w, h)) ==> exists|o: int|
            #![trigger d[o]]
            2 <= o && o + 9 < d.len() && d[o] == 0xff && 0xc0 <= d[o + 1] <= 0xc2 && w == d[o + 7]
                * 256 + d[o + 8] && h == d[o + 5] * 256 + d[o + 6],
{
    if d.len() >= 2 && d[0] == 0xff && d[1] == 0xd8 {
        lemma_jpeg_scan_frame(d, 2);
    }
}

proof fn lemma_jpeg_scan_frame(d: Seq<u8>, off: int)
    requires
        off >= 2,
    ensures
        jpeg_scan(d, off) matches Some((w, h)) ==> exists|o: int|
            #![trigger d[o]]
            off <= o && o + 9 < d.len() && d[o] == 0xff && 0xc0 <= d[o + 1] <= 0xc2 && w == d[o
                + 7] * 256 + d[o + 8] && h == d[o + 5] * 256 + d[o + 6],
    decreases d.len() + 65538 - off,
{
    if !(off + 9 < d.len()) {
    } else if d[off] != 0xff {
        lemma_jpeg_scan_frame(d, off + 1);
    } else if 0xc0 <= d[off + 1] <= 0xc2 {
        assert(d[off] == 0xff);
    } else if be16(d[off + 2], d[off + 3]) < 2 {
    } else {
        lemma_jpeg_scan_frame(d, off + 2 + be16(d[off + 2], d[off + 3]));
    }
}

/// Where the size stands in a PNG and in a GIF: a PNG (its signature
/// starting `89 50 4E 47`) is as wide as the big-endian word at offset 16
/// and as high as the one at offset 20 (its header chunk); a GIF (`GIF87a`
/// or `GIF89a`) is as wide as the little-endian half-word at offset 6 and
/// as high as the one at offset 8 (its screen descriptor).
pub proof fn law_png_gif_size_layout(d: Seq<u8>)
    ensures
        d.len() >= 24 && d[0] == 0x89 && d[1] == 0x50 && d[2] == 0x4e && d[3] == 0x47 ==> png_dims(d)
            == Some(
            (
                (d[16] * 16777216 + d[17] * 65536 + d[18] * 256 + d[19]) as nat,
                (d[20] * 16777216 + d[21] * 65536 + d[22] * 256 + d[23]) as nat,
            ),
        ),
        d.len() >= 10 && d[0] == 0x47 && d[1] == 0x49 && d[2] == 0x46 && d[3] == 0x38 && (d[4] == 0x37
            || d[4] == 0x39) && d[5] == 0x61 ==> gif_dims(d) == Some(
            ((d[6] + d[7] * 256) as nat, (d[8] + d[9] * 256) as nat),
        ),
{
}

/// PNG dimensions from raw bytes.
pub fn get_png_dimensions(data: &[u8]) -> (r: Option<ImageDimensions>)
    ensures
        dims_of(r) == png_dims(data@),
{
    if data.len() < 24 {
        return None;
    }
    if data[0] != 0x89 || data[1] != 0x50 || data[2] != 0x4e || data[3] != 0x47 {
        return None;
    }
    let width = (data[16] as u32) * 16777216 + (data[17] as u32) * 65536 + (data[18] as u32) * 256
        + (data[19] as u32);
    let height = (data[20] as u32) * 16777216 + (data[21] as u32) * 65536 + (data[22] as u32) * 256
        + (data[23] as u32);
    Some(ImageDimensions { width_px: width, height_px: height })
}

/// JPEG dimensions from raw bytes.
pub fn get_jpeg_dimensions(data: &[u8]) -> (r: Option<ImageDimensions>)
    requires
        data@.len() + 65538 <= usize::MAX,
    ensures
        dims_of(r) == jpeg_dims(data@),
{
    let len = data.len();
    if len < 2 || data[0] != 0xff || data[1] != 0xd8 {
        return None;
    }
    let mut offset: usize = 2;
    let limit = if len >= 9 {
        len - 9
    } else {
        0
    };
    while offset < limit
        invariant
            len == data@.len(),
            len + 65538 <= usize::MAX,
            limit == if len >= 9 { len - 9 } else { 0 },
            offset <= len + 65537,
            jpeg_dims(data@) == jpeg_scan(data@, offset as int),
        decreases len + 65538 - offset,
    {
        if data[offset] != 0xff {
            offset = offset + 1;
            continue;
        }
        let marker = data[offset + 1];
        if 0xc0 <= marker && marker <= 0xc2 {
            let height = (data[offset + 5] as u32) * 256 + (data[offset + 6] as u32);
            let width = (data[offset + 7] as u32) * 256 + (data[offset + 8] as u32);
            return Some(ImageDimensions { width_px: width, height_px: height });
        }
        if offset + 3 >= len {
            return None;
        }
        let length = (data[offset + 2] as usize) * 256 + (data[offset + 3] as usize);
        if length < 2 {
            return None;
        }
        offset = offset + 2 + length;
    }
    None
}

/// GIF dimensions from raw bytes.
pub fn get_gif_dimensions(data: &[u8]) -> (r: Option<ImageDimensions>)
    ensures
        dims_of(r) == gif_dims(data@),
{
    if data.len() < 10 {
        return None;
    }
    if data[0] != 0x47 || data[1] != 0x49 || data[2] != 0x46 || data[3] != 0x38 || !(data[4]
        == 0x37 || data[4] == 0x39) || data[5] != 0x61 {
        return None;
    }
    let width = (data[6] as u32) + (data[7] as u32) * 256;
    let height = (data[8] as u32) + (data[9] as u32) * 256;
    Some(ImageDimensions { width_px: width, height_px: height })
}

/// WebP dimensions from raw bytes.
pub fn get_webp_dimensions(data: &[u8]) -> (r: Option<ImageDimensions>)
    ensures
        dims_of(r) == webp_dims(data@),
{
    if data.len() < 30 {
        return None;
    }
    if data[0] != 0x52 || data[1] != 0x49 || data[2] != 0x46 || data[3] != 0x46 || data[8]
        != 0x57 || data[9] != 0x45 || data[10] != 0x42 || data[11] != 0x50 {
        return None;
    }
    if data[12] != 0x56 || data[13] != 0x50 || data[14] != 0x38 {
        return None;
    }
    let kind = data[15];
    if kind == 0x20 {
        let width = ((data[26] as u32) + (data[27] as u32) * 256) % 16384;
        let height = ((data[28] as u32) + (data[29] as u32) * 256) % 16384;
        Some(ImageDimensions { width_px: width, height_px: height })
    } else if kind == 0x4c {
        let bits = (data[21] as u32) + (data[22] as u32) * 256 + (data[23] as u32) * 65536
            + (data[24] as u32) * 16777216;
        let width = bits % 16384 + 1;
        let height = (bits / 16384) % 16384 + 1;
        Some(ImageDimensions { width_px: width, height_px: height })
    } else if kind == 0x58 {
        let width = (data[24] as u32) + (data[25] as u32) * 256 + (data[26] as u32) * 65536 + 1;
        let height = (data[27] as u32) + (data[28] as u32) * 256 + (data[29] as u32) * 65536 + 1;
        Some(ImageDimensions { width_px: width, height_px: height })
    } else {
        None
    }
}

/// Image dimensions from raw bytes, by MIME type.
pub fn get_image_dimensions(data: &[u8], mime_type: &str) -> (r: Option<ImageDimensions>)
    requires
        data@.len() + 65538 <= usize::MAX,
    ensures
        dims_of(r) == if mime_type@ == "image/png"@ {
            png_dims(data@)
        } else if mime_type@ == "image/jpeg"@ {
            jpeg_dims(data@)
        } else if mime_type@ == "image/gif"@ {
            gif_dims(data@)
        } else if mime_type@ == "image/webp"@ {
            webp_dims(data@)
        } else {
            None
        },
{
    if str_eq(mime_type, "image/png") {
        get_png_dimensions(data)
    } else if str_eq(mime_type, "image/jpeg") {
        get_jpeg_dimensions(data)
    } else if str_eq(mime_type, "image/gif") {
        get_gif_dimensions(data)
    } else if str_eq(mime_type, "image/webp") {
        get_webp_dimensions(data)
    } else {
        None
    }
}


/// The Kitty escape introducer `ESC _ G`.
pub open spec fn apc_g() -> Seq<char> {
    seq!['\x1b', '_', 'G']
}

/// The string terminator `ESC \`.
pub open spec fn st() -> Seq<char> {
    seq!['\x1b', '\\']
}

/// `key` followed by `v` in decimal, or nothing.
pub open spec fn opt_param(key: Seq<char>, v: Option<u32>) -> Seq<char> {
    match v {
        Some(x) => key + dec_digits(x as nat),
        None => Seq::empty(),
    }
}

/// The parameters of a Kitty image transmission.
pub open spec fn kitty_params(columns: Option<u32>, rows: Option<u32>, image_id: Option<u32>) -> Seq<char> {
    "a=T,f=100,q=2"@ + opt_param(",c="@, columns) + opt_param(",r="@, rows) + opt_param(
        ",i="@,
        image_id,
    )
}

/// Size of one chunk of Kitty image data, in bytes.
pub const KITTY_CHUNK: usize = 4096;

/// The chunks of image data `b` from a chunk boundary on: each but the last
/// says more follows (`m=1`), the last says none does (`m=0`), and only the
/// first carries the parameters.
pub open spec fn kitty_chunks(b: Seq<u8>, first: bool, params: Seq<char>) -> Seq<char>
    decreases b.len(),
{
    if b.len() <= 4096 {
        apc_g() + "m=0;"@ + decode_utf8(b) + st()
    } else {
        (if first {
            apc_g() + params + ",m=1;"@
        } else {
            apc_g() + "m=1;"@
        }) + decode_utf8(b.take(4096)) + st() + kitty_chunks(b.skip(4096), false, params)
    }
}

/// Every chunk of `b` starts and ends on a character boundary.
pub open spec fn kitty_cuts_ok(b: Seq<u8>) -> bool
    decreases b.len(),
{
    b.len() <= 4096 || (is_char_boundary(b, 4096) && kitty_cuts_ok(b.skip(4096)))
}

/// Text made of ASCII bytes (such as base64) meets the chunking condition of
/// `encode_kitty` wherever it is cut.
pub proof fn law_ascii_text_chunks(b: Seq<u8>)
    requires
        valid_utf8(b),
        forall|i: int| 0 <= i < b.len() ==> b[i] < 0x80,
    ensures
        kitty_cuts_ok(b),
    decreases b.len(),
{
    if b.len() > 4096 {
        crate::strs::lemma_ascii_boundary(b, 4096);
        crate::strs::lemma_boundary_skip(b, 4096, 4096);
        assert forall|i: int| 0 <= i < b.skip(4096).len() implies b.skip(4096)[i] < 0x80 by {
            assert(b.skip(4096)[i] == b[i + 4096]);
        }
        law_ascii_text_chunks(b.skip(4096));
    }
}

/// The Kitty escape sequence(s) that transmit `data`.
pub open spec fn kitty_sequence(data: Seq<char>, columns: Option<u32>, rows: Option<u32>, image_id: Option<u32>) -> Seq<char> {
    let b = encode_utf8(data);
    let params = kitty_params(columns, rows, image_id);
    if b.len() <= 4096 {
        apc_g() + params + seq![';'] + data + st()
    } else {
        kitty_chunks(b, true, params)
    }
}

fn push_param(s: &mut String, key: &str, v: Option<u32>)
    ensures
        final(s)@ == old(s)@ + opt_param(key@, v),
{
    match v {
        Some(x) => {
            s.append(key);
            let d = dec_string(x as u64);
            s.append(d.as_str());
        },
        None => {
            assert(old(s)@ + Seq::<char>::empty() =~= old(s)@);
        },
    }
}

fn kitty_param_string(columns: Option<u32>, rows: Option<u32>, image_id: Option<u32>) -> (r: String)
    ensures
        r@ == kitty_params(columns, rows, image_id),
{
    let mut s = String::from_str("a=T,f=100,q=2");
    push_param(&mut s, ",c=", columns);
    push_param(&mut s, ",r=", rows);
    push_param(&mut s, ",i=", image_id);
    s
}

fn push_apc_g(s: &mut String)
    ensures
        final(s)@ == old(s)@ + apc_g(),
{
    s.push('\x1b');
    s.push('_');
    s.push('G');
    assert(final(s)@ =~= old(s)@ + apc_g());
}

fn push_st(s: &mut String)
    ensures
        final(s)@ == old(s)@ + st(),
{
    s.push('\x1b');
    s.push('\\');
    assert(final(s)@ =~= old(s)@ + st());
}

/// Encode base64 image data for the Kitty graphics protocol, in chunks of
/// 4096 bytes when it is longer than that.
pub fn encode_kitty(
    base64_data: &str,
    columns: Option<u32>,
    rows: Option<u32>,
    image_id: Option<u32>,
) -> (r: String)
    requires
        kitty_cuts_ok(encode_utf8(base64_data@)),
    ensures
        r@ == kitty_sequence(base64_data@, columns, rows, image_id),
{
    let params = kitty_param_string(columns, rows, image_id);
    let n = byte_length(base64_data);
    let mut result = String::new();
    if n <= KITTY_CHUNK {
        push_apc_g(&mut result);
        result.append(params.as_str());
        result.push(';');
        result.append(base64_data);
        push_st(&mut result);
        assert(result@ =~= kitty_sequence(base64_data@, columns, rows, image_id));
        return result;
    }
    let ghost target = kitty_chunks(encode_utf8(base64_data@), true, params@);
    let mut rest = String::from_str(base64_data);
    let mut first = true;
    loop
        invariant_except_break
            result@ + kitty_chunks(encode_utf8(rest@), first, params@) == target,
            kitty_cuts_ok(encode_utf8(rest@)),
        ensures
            result@ == target,
        decreases encode_utf8(rest@).len(),
    {
        let ghost old_result = result@;
        let ghost b = encode_utf8(rest@);
        let m = byte_length(rest.as_str());
        if m <= KITTY_CHUNK {
            push_apc_g(&mut result);
            result.append("m=0;");
            result.append(rest.as_str());
            push_st(&mut result);
            proof {
                broadcast use encode_utf8_decode_utf8;

            }
            assert(result@ =~= old_result + kitty_chunks(b, first, params@));
            break;
        }
        let (chunk, tail) = split_at_byte(rest.as_str(), KITTY_CHUNK);
        push_apc_g(&mut result);
        if first {
            result.append(params.as_str());
            result.append(",m=1;");
        } else {
            result.append("m=1;");
        }
        result.append(chunk.as_str());
        push_st(&mut result);
        proof {
            broadcast use encode_utf8_decode_utf8;

            assert(decode_utf8(b.take(4096)) == chunk@);
            assert(result@ + kitty_chunks(b.skip(4096), false, params@) =~= old_result + kitty_chunks(b, first, params@));
        }
        rest = tail;
        first = false;
    }
    result
}

/// Digit `v` (below 64) of the standard base64 alphabet: `A`-`Z`, `a`-`z`,
/// `0`-`9`, `+`, `/`.
pub open spec fn base64_digit(v: int) -> char {
    if v < 26 {
        (65 + v) as char
    } else if v < 52 {
        (97 + v - 26) as char
    } else if v < 62 {
        (48 + v - 52) as char
    } else if v == 62 {
        '+'
    } else {
        '/'
    }
}

/// The standard padded base64 encoding of `b`: each group of three bytes
/// becomes four digits of six bits each; a last group of one or two bytes
/// gives two or three digits (its bits padded with zeros) and `=` up to four.
pub open spec fn base64_standard(b: Seq<u8>) -> Seq<char>
    decreases b.len(),
{
    if b.len() == 0 {
        Seq::empty()
    } else if b.len() == 1 {
        let x = b[0] as int;
        seq![base64_digit(x / 4), base64_digit((x % 4) * 16), '=', '=']
    } else if b.len() == 2 {
        let x = b[0] as int;
        let y = b[1] as int;
        seq![base64_digit(x / 4), base64_digit((x % 4) * 16 + y / 16), base64_digit((y % 16) * 4), '=']
    } else {
        let x = b[0] as int;
        let y = b[1] as int;
        let z = b[2] as int;
        seq![
            base64_digit(x / 4),
            base64_digit((x % 4) * 16 + y / 16),
            base64_digit((y % 16) * 4 + z / 64),
            base64_digit(z % 64),
        ] + base64_standard(b.skip(3))
    }
}

/// Calls `base64::engine::general_purpose::STANDARD.encode`: the padded
/// standard-alphabet base64 text of `bytes` (`base64_standard`). It panics
/// only when the encoded length overflows `usize`, which the bound on the
/// input excludes.
#[verifier::external_body]
fn base64_encode(bytes: &[u8]) -> (r: String)
    requires
        bytes@.len() < usize::MAX / 2,
    ensures
        r@ == base64_standard(bytes@),
{
    base64::engine::general_purpose::STANDARD.encode(bytes)
}

/// `key` followed by `v`, or nothing.
pub open spec fn opt_text_param(key: Seq<char>, v: Option<Seq<char>>) -> Seq<char> {
    match v {
        Some(x) => seq![';'] + key + x,
        None => Seq::empty(),
    }
}

/// The parameters of an iTerm2 inline image.
pub open spec fn iterm2_params(
    width: Option<Seq<char>>,
    height: Option<Seq<char>>,
    name: Option<Seq<char>>,
    preserve_aspect_ratio: bool,
    inline: bool,
) -> Seq<char> {
    "inline="@ + seq![if inline { '1' } else { '0' }] + opt_text_param("width="@, width)
        + opt_text_param("height="@, height) + opt_text_param(
        "name="@,
        match name {
            Some(n) => Some(base64_standard(encode_utf8(n))),
            None => None,
        },
    ) + if preserve_aspect_ratio {
        Seq::empty()
    } else {
        ";preserveAspectRatio=0"@
    }
}

pub open spec fn opt_str_view(v: Option<&str>) -> Option<Seq<char>> {
    match v {
        Some(s) => Some(s@),
        None => None,
    }
}

/// The iTerm2 escape sequence that shows `data` inline.
pub open spec fn iterm2_sequence(
    data: Seq<char>,
    width: Option<Seq<char>>,
    height: Option<Seq<char>>,
    name: Option<Seq<char>>,
    preserve_aspect_ratio: bool,
    inline: bool,
) -> Seq<char> {
    seq!['\x1b'] + "]1337;File="@ + iterm2_params(width, height, name, preserve_aspect_ratio, inline)
        + seq![':'] + data + seq!['\x07']
}

fn push_text_param(s: &mut String, key: &str, v: Option<&str>)
    ensures
        final(s)@ == old(s)@ + opt_text_param(key@, opt_str_view(v)),
{
    match v {
        Some(x) => {
            s.push(';');
            s.append(key);
            s.append(x);
            assert(final(s)@ =~= old(s)@ + opt_text_param(key@, opt_str_view(v)));
        },
        None => {
            assert(old(s)@ + Seq::<char>::empty() =~= old(s)@);
        },
    }
}

/// Encode base64 image data for the iTerm2 inline image protocol.
pub fn encode_iterm2(
    base64_data: &str,
    width: Option<&str>,
    height: Option<&str>,
    name: Option<&str>,
    preserve_aspect_ratio: bool,
    inline: bool,
) -> (r: String)
    requires
        name matches Some(n) ==> encode_utf8(n@).len() < usize::MAX / 2,
    ensures
        r@ == iterm2_sequence(
            base64_data@,
            opt_str_view(width),
            opt_str_view(height),
            opt_str_view(name),
            preserve_aspect_ratio,
            inline,
        ),
{
    let mut s = String::new();
    s.push('\x1b');
    s.append("]1337;File=");
    s.append("inline=");
    s.push(if inline { '1' } else { '0' });
    push_text_param(&mut s, "width=", width);
    push_text_param(&mut s, "height=", height);
    let ghost before_name = s@;
    match name {
        Some(n) => {
            let encoded = base64_encode(n.as_bytes());
            s.push(';');
            s.append("name=");
            s.append(encoded.as_str());
        },
        None => {},
    }
    assert(s@ =~= before_name + opt_text_param(
        "name="@,
        match name {
            Some(n) => Some(base64_standard(encode_utf8(n@))),
            None => None,
        },
    ));
    let ghost before_flag = s@;
    if !preserve_aspect_ratio {
        s.append(";preserveAspectRatio=0");
    }
    assert(s@ =~= before_flag + if preserve_aspect_ratio {
        Seq::empty()
    } else {
        ";preserveAspectRatio=0"@
    });
    s.push(':');
    s.append(base64_data);
    s.push('\x07');
    assert(s@ =~= iterm2_sequence(
        base64_data@,
        opt_str_view(width),
        opt_str_view(height),
        opt_str_view(name),
        preserve_aspect_ratio,
        inline,
    ));
    s
}

/// Render an image that occupies `rows` terminal rows with the terminal's
/// image protocol, as (escape sequence, rows); `None` when the terminal
/// shows no images.
pub fn render_image(
    terminal_info: &TerminalInfo,
    base64_data: &str,
    rows: u32,
    options: &ImageRenderOptions,
) -> (r: Option<(String, u32)>)
    requires
        terminal_info.image_protocol == Some(ImageProtocol::Kitty) ==> kitty_cuts_ok(
            encode_utf8(base64_data@),
        ),
    ensures
        match terminal_info.image_protocol {
            None => r is None,
            Some(ImageProtocol::Kitty) => r matches Some((seq, n)) && n == rows && seq@
                == kitty_sequence(base64_data@, Some(options.max_width_cells), Some(rows), None),
            Some(ImageProtocol::Iterm2) => r matches Some((seq, n)) && n == rows && seq@
                == iterm2_sequence(
                base64_data@,
                Some(dec_digits(options.max_width_cells as nat)),
                Some("auto"@),
                None,
                options.preserve_aspect_ratio,
                true,
            ),
        },
{
    let proto = match terminal_info.image_protocol {
        Some(p) => p,
        None => {
            return None;
        },
    };
    let max_width = options.max_width_cells;
    match proto {
        ImageProtocol::Kitty => {
            let sequence = encode_kitty(base64_data, Some(max_width), Some(rows), None);
            Some((sequence, rows))
        },
        ImageProtocol::Iterm2 => {
            let w = dec_string(max_width as u64);
            let sequence = encode_iterm2(
                base64_data,
                Some(w.as_str()),
                Some("auto"),
                None,
                options.preserve_aspect_ratio,
                true,
            );
            Some((sequence, rows))
        },
    }
}

/// The text shown for an image that cannot be displayed inline:
/// `[Image: name [mime] WxH]`, the name and size where known.
pub open spec fn fallback_text(mime: Seq<char>, d: Option<ImageDimensions>, name: Option<Seq<char>>) -> Seq<char> {
    "[Image: "@ + match name {
        Some(n) => n + seq![' '],
        None => Seq::empty(),
    } + seq!['['] + mime + seq![']'] + match d {
        Some(x) => seq![' '] + dec_digits(x.width_px as nat) + seq!['x'] + dec_digits(
            x.height_px as nat,
        ),
        None => Seq::empty(),
    } + seq![']']
}

/// Fallback text for an image that cannot be displayed inline.
pub fn image_fallback(
    mime_type: &str,
    dimensions: Option<ImageDimensions>,
    filename: Option<&str>,
) -> (r: String)
    ensures
        r@ == fallback_text(mime_type@, dimensions, opt_str_view(filename)),
{
    let mut s = String::from_str("[Image: ");
    let ghost s0 = s@;
    match filename {
        Some(n) => {
            s.append(n);
            s.push(' ');
        },
        None => {},
    }
    let ghost s1 = s@;
    s.push('[');
    s.append(mime_type);
    s.push(']');
    let ghost s2 = s@;
    match dimensions {
        Some(d) => {
            s.push(' ');
            let w = dec_string(d.width_px as u64);
            s.append(w.as_str());
            s.push('x');
            let h = dec_string(d.height_px as u64);
            s.append(h.as_str());
        },
        None => {},
    }
    let ghost s3 = s@;
    s.push(']');
    proof {
        assert(s1 =~= s0 + match opt_str_view(filename) {
            Some(n) => n + seq![' '],
            None => Seq::empty(),
        });
        assert(s3 =~= s2 + match dimensions {
            Some(x) => seq![' '] + dec_digits(x.width_px as nat) + seq!['x'] + dec_digits(
                x.height_px as nat,
            ),
            None => Seq::empty(),
        });
    }
    assert(s@ =~= fallback_text(mime_type@, dimensions, opt_str_view(filename)));
    s
}

} // verus!
