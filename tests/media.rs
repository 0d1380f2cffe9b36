use bytes::Bytes;
use saidl::media::{fragment_payload, mux_command, output_dir_name, strip_png, video_file_name, LIST_FILE};

const SIGNATURE: [u8; 8] = [0x89, b'P', b'N', b'G', 0x0d, 0x0a, 0x1a, 0x0a];

#[test]
fn strip_removes_exactly_the_signature() {
    let payload = vec![0x47u8, 0x40, 0x11, 0x10, 0x00];
    let mut data = SIGNATURE.to_vec();
    data.extend_from_slice(&payload);
    let out = strip_png(Bytes::from(data));
    assert_eq!(out.as_ref(), payload.as_slice());
}

#[test]
fn strip_of_signature_alone_is_empty() {
    let out = strip_png(Bytes::from(SIGNATURE.to_vec()));
    assert!(out.is_empty());
}

#[test]
fn payload_without_disguise_is_unchanged() {
    let data = Bytes::from(vec![1u8, 2, 3]);
    assert_eq!(fragment_payload(data.clone(), false), Some(data));
}

#[test]
fn disguised_payload_too_short_is_refused() {
    assert_eq!(fragment_payload(Bytes::from(vec![1u8, 2, 3]), true), None);
    let mut data = SIGNATURE.to_vec();
    data.push(9);
    assert_eq!(fragment_payload(Bytes::from(data), true), Some(Bytes::from(vec![9u8])));
}

#[test]
fn output_names() {
    assert_eq!(output_dir_name(1700000000123), "sai-output1700000000123/");
    assert_eq!(video_file_name(1700000000123, None), "1700000000123.mp4");
    assert_eq!(video_file_name(5, Some("movie".to_string())), "movie.mp4");
}

#[test]
fn mux_command_lists_manifest_and_output() {
    assert_eq!(
        mux_command("sai-output42/", LIST_FILE, "42.mp4"),
        "ffmpeg -f concat -safe 0 -i sai-output42/list.txt -c copy 42.mp4"
    );
}
