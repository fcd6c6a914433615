//! Account screenshots: reading the capture helper's output, and the
//! pieces of the message that carries the images to a chat webhook.

use vstd::prelude::*;
use vstd::utf8::encode_utf8;
use crate::commands::{year_field, is_digit_char};
use crate::crypto::{base64_fits, base64_decode, base64_encode, decoded_ok, decode_failed, b64_decode, b64_encode};
use crate::text::{
    chars_of, owned, concat2, concat3, push_str, string_of, string_of_range, trim, trim_str, has_prefix,
    occurs_at_exec, split_on, split_chars,
};
use crate::version::{decimal, push_decimal};
use crate::roblox_api::{take_chars, take_chars_exec};

verus! {

/// What the capture helper prints before the image.
pub const CAPTURE_PREFIX: &'static str = "CAPTURED_B64:";

pub const NO_IMAGE: &'static str = "No image data returned";
pub const CAPTURE_FAILED: &'static str = "Capture failed";

/// The first line of `lines` (from `i` on) that starts with the capture
/// prefix.
pub open spec fn capture_line_from(lines: Seq<Seq<char>>, i: int) -> Option<Seq<char>>
    decreases lines.len() - i,
{
    if i < 0 || i >= lines.len() {
        None
    } else if has_prefix(lines[i], CAPTURE_PREFIX@) {
        Some(lines[i])
    } else {
        capture_line_from(lines, i + 1)
    }
}

/// The base64 text the capture helper printed: what follows the prefix on
/// the first line that has it, trimmed.
pub open spec fn capture_payload(out: Seq<char>) -> Option<Seq<char>> {
    match capture_line_from(split_on(out, '\n'), 0) {
        Some(l) => Some(trim(l.skip(13))),
        None => None,
    }
}

/// The image bytes in the capture helper's output: the payload decoded, or
/// why there are none (no payload line, or the decode error's text).
pub fn decode_capture_output(stdout: &str) -> (r: Result<Vec<u8>, String>)
    ensures
        capture_payload(stdout@) is None ==> (r matches Err(e) && e@ == NO_IMAGE@),
        capture_payload(stdout@) matches Some(p) ==> match r {
            Ok(b) => base64_decode(encode_utf8(p)) == decoded_ok(b@),
            Err(m) => base64_decode(encode_utf8(p)) == decode_failed(m@),
        },
{
    let v = chars_of(stdout);
    let lines = split_chars(&v, '\n');
    let ghost ls = split_on(v@, '\n');
    let pat = chars_of(CAPTURE_PREFIX);
    proof {
        reveal_strlit("CAPTURED_B64:");
    }
    let mut i: usize = 0;
    while i < lines.len()
        invariant
            i <= lines@.len(),
            lines@.len() == ls.len(),
            ls == split_on(stdout@, '\n'),
            forall|k: int| 0 <= k < lines@.len() ==> (#[trigger] lines@[k])@ == ls[k],
            pat@ == CAPTURE_PREFIX@,
            pat@.len() == 13,
            capture_line_from(ls, 0) == capture_line_from(ls, i as int),
        decreases lines.len() - i,
    {
        if occurs_at_exec(&lines[i], 0, &pat) {
            let rest = string_of_range(&lines[i], 13, lines[i].len());
            assert(rest@ =~= ls[i as int].skip(13));
            let payload = trim_str(rest.as_str());
            return b64_decode(payload.as_str());
        }
        i = i + 1;
    }
    Err(owned(NO_IMAGE))
}

/// A captured image as base64 text, for the preview.
pub fn encode_preview(png: &Vec<u8>) -> (r: String)
    requires
        base64_fits(png@.len()),
    ensures
        r@ == base64_encode(png@),
{
    b64_encode(png.as_slice())
}

/// Why a capture failed: the helper's error output trimmed, or a generic
/// message when it printed nothing.
pub fn capture_error(stderr: &str) -> (r: String)
    ensures
        r@ == (if trim(stderr@).len() == 0 {
            CAPTURE_FAILED@
        } else {
            trim(stderr@)
        }),
{
    let t = trim_str(stderr);
    if t.as_str().unicode_len() == 0 {
        owned(CAPTURE_FAILED)
    } else {
        t
    }
}

/// The form-part name of the `i`-th attachment: `files[i]`.
pub fn attachment_part_name(i: usize) -> (r: String)
    ensures
        r@ == "files["@ + decimal(i as nat) + "]"@,
{
    let mut r = owned("files[");
    push_decimal(&mut r, i as u64);
    push_str(&mut r, "]");
    r
}

/// The file name of the `i`-th attachment: `screenshot-<i+1>.png`.
pub fn attachment_file_name(i: usize) -> (r: String)
    requires
        i < u64::MAX,
    ensures
        r@ == "screenshot-"@ + decimal((i + 1) as nat) + ".png"@,
{
    let mut r = owned("screenshot-");
    push_decimal(&mut r, i as u64 + 1);
    push_str(&mut r, ".png");
    r
}

/// The error for a webhook that refused the message: its status and the
/// first 300 characters of its reply.
pub fn webhook_error(status: &str, body: &str) -> (r: String)
    ensures
        r@ == "Webhook returned "@ + status@ + ": "@ + take_chars(body@, 300),
{
    let t = take_chars_exec(body, 300);
    let mut r = concat3("Webhook returned ", status, ": ");
    push_str(&mut r, t.as_str());
    r
}

/// The message that goes with the screenshots: the user name in bold, a
/// dash and the capture time.
pub fn capture_caption(username: &str, when: &str) -> (r: String)
    ensures
        r@ == "**"@ + username@ + "** \u{2014} "@ + when@,
{
    let mut r = concat3("**", username, "** \u{2014} ");
    push_str(&mut r, when);
    r
}

/// `-MM-DD hh:mm:ss`: fifteen characters, the separators in place and two
/// digits in each field.
pub open spec fn caption_time_fields(b: Seq<char>) -> bool {
    &&& b.len() == 15
    &&& b[0] == '-' && b[3] == '-' && b[6] == ' ' && b[9] == ':' && b[12] == ':'
    &&& forall|i: int|
        0 <= i < 15 && i != 0 && i != 3 && i != 6 && i != 9 && i != 12 ==> is_digit_char(#[trigger] b[i])
}

/// A time as `%Y-%m-%d %H:%M:%S UTC` prints it: the year, the other fields
/// two digits each, and ` UTC`.
pub open spec fn caption_time_text(t: Seq<char>) -> bool {
    exists|y: Seq<char>, b: Seq<char>|
        #![trigger year_field(y), caption_time_fields(b)]
        year_field(y) && caption_time_fields(b) && t == y + b + seq![' ', 'U', 'T', 'C']
}

/// Calls `chrono::Utc::now()` and formats it as `%Y-%m-%d %H:%M:%S UTC`.
/// Trusted: the text is laid out as chrono's formatter writes those fields
/// (the year four digits, or signed outside 0..=9999; the others two
/// zero-padded digits); which instant it names is not stated: it is the
/// current time.
#[verifier::external_body]
fn utc_now_text() -> (r: String)
    ensures
        caption_time_text(r@),
{
    chrono::Utc::now().format("%Y-%m-%d %H:%M:%S UTC").to_string()
}

/// The message for screenshots taken now.
pub fn capture_caption_now(username: &str) -> (r: String)
    ensures
        exists|when: Seq<char>| caption_time_text(when) && r@ == "**"@ + username@ + "** \u{2014} "@ + when,
{
    let when = utc_now_text();
    capture_caption(username, when.as_str())
}

} // verus!
