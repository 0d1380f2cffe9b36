//! Media fragments: the disguise signature removed from fetched bytes, and the names and the
//! command that hand the ordered fragments to the muxer.
use vstd::prelude::*;

use bytes::Bytes;
use http::header::HeaderMap;

use crate::text::{decimal, decimal_string};

verus! {

#[verifier::external_type_specification]
#[verifier::external_body]
pub struct ExBytes(Bytes);

/// The bytes a buffer holds.
pub uninterp spec fn bytes_content(b: Bytes) -> Seq<u8>;

/// Relies on `Bytes::len`: the number of bytes held.
pub assume_specification[ Bytes::len ](b: &Bytes) -> (r: usize)
    ensures
        r == bytes_content(*b).len(),
;

/// Relies on `Bytes::slice`: the bytes from `start` to the end, which it panics on only past
/// the length.
#[verifier::external_body]
fn slice_from(b: &Bytes, start: usize) -> (r: Bytes)
    requires
        start <= bytes_content(*b).len(),
    ensures
        bytes_content(r) == bytes_content(*b).subrange(start as int, bytes_content(*b).len() as int),
{
    b.slice(start..)
}

/// Length of the image signature that disguised fragments carry in front.
pub const SIGNATURE_LEN: usize = 8;

/// A payload without its signature.
pub open spec fn stripped(b: Seq<u8>) -> Seq<u8> {
    b.subrange(SIGNATURE_LEN as int, b.len() as int)
}

/// Removes the image signature in front of a disguised fragment.
pub fn strip_png(data: Bytes) -> (r: Bytes)
    requires
        bytes_content(data).len() >= SIGNATURE_LEN,
    ensures
        bytes_content(r) == stripped(bytes_content(data)),
{
    slice_from(&data, SIGNATURE_LEN)
}

/// The media bytes of a fetched fragment: with the signature removed in disguise mode, as
/// fetched otherwise; `None` for a disguised fragment too short to hold its signature.
pub fn fragment_payload(data: Bytes, disguised: bool) -> (r: Option<Bytes>)
    ensures
        !disguised ==> r == Some(data),
        disguised ==> (r is Some <==> bytes_content(data).len() >= SIGNATURE_LEN),
        disguised ==> (r matches Some(b) ==> bytes_content(b) == stripped(bytes_content(data))),
{
    if !disguised {
        Some(data)
    } else if data.len() < SIGNATURE_LEN {
        None
    } else {
        Some(strip_png(data))
    }
}

/// Disguise stripping: a signature of eight bytes followed by a payload `p` gives back exactly
/// `p`, an empty one included.
pub proof fn lemma_strip_signature(signature: Seq<u8>, p: Seq<u8>)
    requires
        signature.len() == SIGNATURE_LEN,
    ensures
        stripped(signature + p) == p,
{
    assert((signature + p).subrange(SIGNATURE_LEN as int, (signature + p).len() as int) =~= p);
}

/// One fragment to fetch and where its bytes go.
pub struct HLSFragmentHandler {
    pub url: String,
    pub headers: Option<HeaderMap>,
    pub png: bool,
    pub h2: bool,
    pub file_name: String,
    pub dir: String,
    pub delay: Option<u64>,
}

impl HLSFragmentHandler {
    pub fn new(
        url: String,
        headers: Option<HeaderMap>,
        png: bool,
        h2: bool,
        file_name: String,
        dir: String,
        delay: Option<u64>,
    ) -> (r: Self)
        ensures
            r.url == url,
            r.headers == headers,
            r.png == png,
            r.h2 == h2,
            r.file_name == file_name,
            r.dir == dir,
            r.delay == delay,
    {
        HLSFragmentHandler { url, headers, png, h2, file_name, dir, delay }
    }
}

/// The name of the manifest file in the working directory.
pub const LIST_FILE: &'static str = "list.txt";

/// The working directory named after a time in milliseconds.
pub open spec fn output_dir(millis: nat) -> Seq<char> {
    seq!['s', 'a', 'i', '-', 'o', 'u', 't', 'p', 'u', 't'] + decimal(millis) + seq!['/']
}

/// The video file: the output name given, else the time of the working directory, and `.mp4`.
pub open spec fn video_name(millis: nat, output: Option<Seq<char>>) -> Seq<char> {
    match output {
        Some(o) => o + seq!['.', 'm', 'p', '4'],
        None => decimal(millis) + seq!['.', 'm', 'p', '4'],
    }
}

/// The name of the working directory for a run that starts at `millis`.
pub fn output_dir_name(millis: u64) -> (r: String)
    ensures
        r@ == output_dir(millis as nat),
{
    let mut r = String::from_str("sai-output");
    let digits = decimal_string(millis);
    r.append(digits.as_str());
    r.append("/");
    proof {
        reveal_strlit("sai-output");
        reveal_strlit("/");
    }
    assert(r@ =~= output_dir(millis as nat));
    r
}

/// The name of the muxed video.
pub fn video_file_name(millis: u64, output: Option<String>) -> (r: String)
    ensures
        r@ == video_name(millis as nat, match output {
            Some(o) => Some(o@),
            None => None,
        }),
{
    let mut name = match output {
        Some(o) => o,
        None => decimal_string(millis),
    };
    name.append(".mp4");
    proof {
        reveal_strlit(".mp4");
    }
    assert(name@ =~= video_name(millis as nat, match output {
        Some(o) => Some(o@),
        None => None,
    }));
    name
}

/// The command that concatenates the listed fragments into the video, streams copied.
pub fn mux_command(dir: &str, list_file: &str, video: &str) -> (r: String)
    ensures
        r@ == "ffmpeg -f concat -safe 0 -i "@ + dir@ + list_file@ + " -c copy "@ + video@,
{
    let mut cmd = String::from_str("ffmpeg -f concat -safe 0 -i ");
    cmd.append(dir);
    cmd.append(list_file);
    cmd.append(" -c copy ");
    cmd.append(video);
    cmd
}

} // verus!
