//! Capture on request: what the display sent to scanout, as a PPM.
//!
//! The lab has no compositor to screenshot, so the capture comes from here.
//! Writing a bare name to [`REQUEST`] asks for the next presented image; the
//! display loop hands the path to the presenter, which copies the swapchain
//! image it is about to present and writes `/tmp/<name>.ppm`.

use vstd::prelude::*;
use vstd::string::*;
use vstd::utf8::*;

use crate::text::{chars_of, decimal, push_decimal, same_text, trim, trimmed};

verus! {

/// Where the lab writes the name of the capture it wants.
pub const REQUEST: &'static str = "/tmp/reims-capture.req";

/// Longest name a request may carry.
pub const MAX_NAME: usize = 128;

/// Why a capture request was refused.
#[derive(Clone, Debug, PartialEq, Eq)]
pub enum CaptureRefusal {
    Empty,
    /// `.`, `..`, a `/`, or a byte outside `[A-Za-z0-9._-]`.
    BadName(String),
    TooLong(usize),
}

/// Whether a name may hold the character: `[A-Za-z0-9._-]`.
pub open spec fn is_allowed(c: char) -> bool {
    ||| 'A' <= c <= 'Z'
    ||| 'a' <= c <= 'z'
    ||| '0' <= c <= '9'
    ||| c == '.'
    ||| c == '_'
    ||| c == '-'
}

fn allowed(c: char) -> (a: bool)
    ensures
        a == is_allowed(c),
{
    ('A' <= c && c <= 'Z') || ('a' <= c && c <= 'z') || ('0' <= c && c <= '9') || c == '.' || c
        == '_' || c == '-'
}

/// Whether a name of acceptable length is one path component of allowed
/// characters.
pub open spec fn is_plain(name: Seq<char>) -> bool {
    &&& name != "."@
    &&& name != ".."@
    &&& forall|i: int| 0 <= i < name.len() ==> is_allowed(#[trigger] name[i])
}

/// Whether `result` is what a request file with `contents` comes to.
pub open spec fn is_request(contents: Seq<char>, result: Result<String, CaptureRefusal>) -> bool {
    let name = trimmed(contents);
    let len = encode_utf8(name).len();
    if name.len() == 0 {
        result matches Err(CaptureRefusal::Empty)
    } else if len > MAX_NAME {
        result matches Err(CaptureRefusal::TooLong(n)) && n == len
    } else if !is_plain(name) {
        result matches Err(CaptureRefusal::BadName(s)) && s@ == name
    } else {
        result matches Ok(s) && s@ == name
    }
}

/// The capture name in a request: trimmed, one path component that stays in
/// `/tmp`, at most 128 bytes of `[A-Za-z0-9._-]`.
pub fn parse_request(contents: &str) -> (result: Result<String, CaptureRefusal>)
    ensures
        is_request(contents@, result),
{
    let name: &str = trim(contents);
    if name.is_empty() {
        return Err(CaptureRefusal::Empty);
    }
    let len: usize = name.as_bytes().len();
    if len > MAX_NAME {
        return Err(CaptureRefusal::TooLong(len));
    }
    let mut plain: bool = !same_text(name, ".") && !same_text(name, "..");
    let chars: Vec<char> = chars_of(name);
    let mut i: usize = 0;
    while plain && i < chars.len()
        invariant
            i <= chars@.len(),
            chars@ == name@,
            plain ==> name@ != "."@ && name@ != ".."@ && forall|k: int|
                0 <= k < i ==> is_allowed(#[trigger] name@[k]),
            !plain ==> !is_plain(name@),
        decreases chars@.len() - i,
    {
        if !allowed(chars[i]) {
            plain = false;
        }
        i += 1;
    }
    if plain {
        Ok(name.to_owned())
    } else {
        Err(CaptureRefusal::BadName(name.to_owned()))
    }
}

/// `/tmp/<name>.ppm`; a name that is itself an absolute path stands for itself.
pub open spec fn output_text(name: Seq<char>) -> Seq<char> {
    if name.len() > 0 && name[0] == '/' {
        name + ".ppm"@
    } else {
        "/tmp/"@ + name + ".ppm"@
    }
}

/// `/tmp/<name>.ppm` for an accepted name.
pub fn output_path(name: &str) -> (path: String)
    ensures
        path@ == output_text(name@),
{
    let mut path: String = String::new();
    if name.is_empty() || name.get_char(0) != '/' {
        path.append("/tmp/");
    }
    path.append(name);
    path.append(".ppm");
    path
}

/// Where the capture a request asks for goes, or why there is none.
pub fn serve_request(contents: &str) -> (result: Result<String, CaptureRefusal>)
    ensures
        match result {
            Ok(path) => exists|name: String|
                is_request(contents@, Ok(name)) && path@ == output_text(#[trigger] name@),
            Err(refusal) => is_request(contents@, Err(refusal)),
        },
{
    match parse_request(contents) {
        Ok(name) => {
            let path: String = output_path(name.as_str());
            Ok(path)
        },
        Err(refusal) => Err(refusal),
    }
}

/// A capture stays in `/tmp`: an accepted name is a single component, neither
/// `.` nor `..`, at most 128 bytes, and its file is `/tmp/<name>.ppm`.
pub proof fn law_capture_stays_in_tmp(contents: Seq<char>, name: String)
    requires
        is_request(contents, Ok(name)),
    ensures
        name@ == trimmed(contents),
        output_text(name@) == "/tmp/"@ + name@ + ".ppm"@,
        !name@.contains('/'),
        name@ != "."@,
        name@ != ".."@,
        encode_utf8(name@).len() <= MAX_NAME,
{
    if name@.contains('/') {
        let i = choose|i: int| 0 <= i < name@.len() && name@[i] == '/';
        assert(is_allowed(name@[i]));
    }
    assert(is_allowed(name@[0]));
}

/// What `{:?}` makes of a text: the text in quotes, with escapes.
pub uninterp spec fn debug_quoted(s: Seq<char>) -> Seq<char>;

/// Formats a text with its `Debug` implementation (`format!("{:?}", s)`). The
/// result is named, not described: which characters are escaped follows
/// Unicode's tables.
#[verifier::external_body]
fn quote(s: &str) -> (quoted: String)
    ensures
        quoted@ == debug_quoted(s@),
{
    format!("{:?}", s)
}

impl CaptureRefusal {
    /// The refusal as a log line shows it, with a bad name quoted as `quoted`.
    pub open spec fn text(self, quoted: Seq<char>) -> Seq<char> {
        match self {
            CaptureRefusal::Empty => "capture_request_empty"@,
            CaptureRefusal::BadName(_) => "capture_request_bad_name name="@ + quoted,
            CaptureRefusal::TooLong(len) => "capture_request_too_long len="@ + decimal(len as nat),
        }
    }

    /// The bad name, quoted.
    pub open spec fn quoted_name(self) -> Seq<char> {
        match self {
            CaptureRefusal::BadName(name) => debug_quoted(name@),
            _ => Seq::empty(),
        }
    }

    /// The refusal as a log line shows it.
    pub fn to_string(&self) -> (text: String)
        ensures
            text@ == self.text(self.quoted_name()),
    {
        match self {
            CaptureRefusal::BadName(name) => self.render(quote(name.as_str()).as_str()),
            _ => self.render(""),
        }
    }

    /// The refusal as a log line shows it, with a bad name quoted as `quoted`.
    pub fn render(&self, quoted: &str) -> (text: String)
        ensures
            text@ == self.text(quoted@),
    {
        match self {
            CaptureRefusal::Empty => "capture_request_empty".to_owned(),
            CaptureRefusal::BadName(_) => {
                "capture_request_bad_name name=".to_owned().concat(quoted)
            },
            CaptureRefusal::TooLong(len) => {
                let mut text: String = "capture_request_too_long len=".to_owned();
                push_decimal(&mut text, *len as u64);
                text
            },
        }
    }
}

/// A frame with fewer bytes than its geometry names.
#[derive(Clone, Copy, Debug, PartialEq, Eq, Structural)]
pub struct ShortFrame {
    pub len: usize,
    pub width: u32,
    pub height: u32,
}

impl ShortFrame {
    /// The refusal as a log line shows it.
    pub fn to_string(&self) -> (text: String)
        ensures
            text@ == decimal(self.len as nat) + " bytes for "@ + decimal(self.width as nat) + "x"@
                + decimal(self.height as nat),
    {
        let mut text: String = String::new();
        push_decimal(&mut text, self.len as u64);
        text.append(" bytes for ");
        push_decimal(&mut text, self.width as u64);
        text.append("x");
        push_decimal(&mut text, self.height as u64);
        text
    }
}

/// The header of a binary PPM with 8-bit channels.
pub open spec fn ppm_header(width: nat, height: nat) -> Seq<char> {
    "P6\n"@ + decimal(width) + " "@ + decimal(height) + "\n255\n"@
}

/// The red, green and blue bytes of packed blue, green, red, alpha pixels.
pub open spec fn rgb_of(bgra: Seq<u8>, pixels: nat) -> Seq<u8> {
    Seq::new(3 * pixels, |i: int| bgra[4 * (i / 3) + 2 - i % 3])
}

/// `bgra` (tightly packed, `width * height * 4` bytes) as a binary PPM.
pub fn encode_ppm(width: u32, height: u32, bgra: &[u8]) -> (result: Result<Vec<u8>, ShortFrame>)
    requires
        width * height * 4 <= usize::MAX,
    ensures
        match result {
            Ok(ppm) => bgra@.len() >= width * height * 4 && ppm@ == encode_utf8(
                ppm_header(width as nat, height as nat),
            ) + rgb_of(bgra@, (width * height) as nat),
            Err(short) => bgra@.len() < width * height * 4 && short == (ShortFrame {
                len: bgra@.len() as usize,
                width,
                height,
            }),
        },
{
    let pixels: usize = width as usize * height as usize;
    if bgra.len() < pixels * 4 {
        return Err(ShortFrame { len: bgra.len(), width, height });
    }
    let mut header: String = String::new();
    header.append("P6\n");
    push_decimal(&mut header, width as u64);
    header.append(" ");
    push_decimal(&mut header, height as u64);
    header.append("\n255\n");
    let mut out: Vec<u8> = header.as_str().as_bytes_vec();
    let ghost head = out@;
    let mut n: usize = 0;
    while n < pixels
        invariant
            n <= pixels,
            pixels * 4 <= bgra@.len() <= usize::MAX,
            out@ =~= head + rgb_of(bgra@, n as nat),
        decreases pixels - n,
    {
        out.push(bgra[4 * n + 2]);
        out.push(bgra[4 * n + 1]);
        out.push(bgra[4 * n]);
        n += 1;
    }
    Ok(out)
}

/// Where a capture is written before it is renamed to `path`, so a reader never
/// sees half a file.
pub fn part_path(path: &str) -> (part: String)
    ensures
        part@ == path@ + ".part"@,
{
    path.to_owned().concat(".part")
}

/// Each pixel of the PPM is its red, green and blue, in the order of the frame.
pub proof fn law_ppm_is_rgb_from_bgra(bgra: Seq<u8>, pixels: nat, n: int)
    requires
        0 <= n < pixels,
        bgra.len() >= 4 * pixels,
    ensures
        rgb_of(bgra, pixels).len() == 3 * pixels,
        rgb_of(bgra, pixels)[3 * n] == bgra[4 * n + 2],
        rgb_of(bgra, pixels)[3 * n + 1] == bgra[4 * n + 1],
        rgb_of(bgra, pixels)[3 * n + 2] == bgra[4 * n],
{
}

/// A request is accepted exactly where its trimmed name is 1 to 128 bytes of
/// ASCII letters, digits, dots, underscores and hyphens, and is neither `.` nor
/// `..`; otherwise the refusal says which of these failed, in this order: nothing,
/// too long, another character.
pub proof fn law_a_request_is_a_plain_name(
    contents: Seq<char>,
    result: Result<String, CaptureRefusal>,
)
    requires
        is_request(contents, result),
    ensures
        ({
            let name = trimmed(contents);
            let len = encode_utf8(name).len();
            let plain = name != seq!['.'] && name != seq!['.', '.'] && forall|i: int|
                0 <= i < name.len() ==> {
                    let c = (#[trigger] name[i]) as int;
                    48 <= c <= 57 || 65 <= c <= 90 || 97 <= c <= 122 || c == 45 || c == 46 || c
                        == 95
                };
            &&& result is Ok <==> name.len() > 0 && len <= 128 && plain
            &&& result matches Ok(accepted) ==> accepted@ == name
            &&& (result matches Err(CaptureRefusal::Empty)) <==> name.len() == 0
            &&& (result matches Err(CaptureRefusal::TooLong(_))) <==> name.len() > 0 && len > 128
            &&& result matches Err(CaptureRefusal::TooLong(n)) ==> n == len
            &&& (result matches Err(CaptureRefusal::BadName(_))) <==> name.len() > 0 && len <= 128
                && !plain
            &&& result matches Err(CaptureRefusal::BadName(bad)) ==> bad@ == name
        }),
{
    reveal_strlit(".");
    reveal_strlit("..");
    assert("."@ =~= seq!['.']);
    assert(".."@ =~= seq!['.', '.']);
    let name = trimmed(contents);
    assert(forall|c: char| #[trigger] is_allowed(c) <==> {
        let v = c as int;
        48 <= v <= 57 || 65 <= v <= 90 || 97 <= v <= 122 || v == 45 || v == 46 || v == 95
    });
    if is_plain(name) {
        assert forall|i: int| 0 <= i < name.len() implies {
            let c = (#[trigger] name[i]) as int;
            48 <= c <= 57 || 65 <= c <= 90 || 97 <= c <= 122 || c == 45 || c == 46 || c == 95
        } by {
            assert(is_allowed(name[i]));
        }
    }
}

/// A PPM begins with `P6`, its width, its height and 255, each ended by the white
/// space that the format asks for.
pub proof fn law_a_ppm_names_its_size(width: nat, height: nat)
    ensures
        ppm_header(width, height) == seq!['P', '6', '\n'] + decimal(width) + seq![' '] + decimal(
            height,
        ) + seq!['\n', '2', '5', '5', '\n'],
{
    reveal_strlit("P6\n");
    reveal_strlit(" ");
    reveal_strlit("\n255\n");
    assert("P6\n"@ =~= seq!['P', '6', '\n']);
    assert(" "@ =~= seq![' ']);
    assert("\n255\n"@ =~= seq!['\n', '2', '5', '5', '\n']);
}

/// A refusal of a request reads as its name, and what it is about.
pub proof fn law_a_refused_request_reads_in_full(name: String, len: usize, quoted: Seq<char>)
    ensures
        CaptureRefusal::Empty.text(quoted) == "capture_request_empty"@,
        CaptureRefusal::BadName(name).text(quoted) == "capture_request_bad_name"@ + " name="@
            + quoted,
        CaptureRefusal::TooLong(len).text(quoted) == "capture_request_too_long"@ + " len="@
            + decimal(len as nat),
        CaptureRefusal::BadName(name).quoted_name() == debug_quoted(name@),
{
    reveal_strlit("capture_request_bad_name name=");
    reveal_strlit("capture_request_bad_name");
    reveal_strlit(" name=");
    reveal_strlit("capture_request_too_long len=");
    reveal_strlit("capture_request_too_long");
    reveal_strlit(" len=");
    assert("capture_request_bad_name name="@ =~= "capture_request_bad_name"@ + " name="@);
    assert("capture_request_too_long len="@ =~= "capture_request_too_long"@ + " len="@);
}

} // verus!
