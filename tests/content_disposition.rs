use homeserver_core::content_disposition::{content_type_of, disposition_of};
use homeserver_core::MediaKind;
use homeserver_core::{content_disposition_type, make_content_disposition, make_content_type, sanitise_filename};

#[test]
fn string_sanitisation() {
    const SAMPLE: &str =
        "🏳️‍⚧️this\\r\\n įs \r\\n ä \\r\nstrïng 🥴that\n\r ../../../../../../../may be\r\n malicious🏳️‍⚧️";
    const SANITISED: &str = "🏳️‍⚧️thisrn įs n ä rstrïng 🥴that ..............may be malicious🏳️‍⚧️";

    let options = sanitize_filename::Options {
        windows: true,
        truncate: true,
        replacement: "",
    };

    println!("{}", SAMPLE);
    println!("{}", sanitize_filename::sanitize_with_options(SAMPLE, options.clone()));
    println!("{:?}", SAMPLE);
    println!("{:?}", sanitize_filename::sanitize_with_options(SAMPLE, options.clone()));

    assert_eq!(SANITISED, sanitize_filename::sanitize_with_options(SAMPLE, options.clone()));
}

const PNG: [u8; 16] = [0x89, 0x50, 0x4E, 0x47, 0x0D, 0x0A, 0x1A, 0x0A, 0, 0, 0, 0x0D, 0x49, 0x48, 0x44, 0x52];

#[test]
fn unknown_bytes_are_an_attachment() {
    assert_eq!(content_disposition_type(b"hello there", &None), "attachment");
    assert_eq!(make_content_type(b"hello there", &None), "application/octet-stream");
}

#[test]
fn png_is_inline() {
    assert_eq!(content_disposition_type(&PNG, &None), "inline");
    assert_eq!(make_content_type(&PNG, &None), "image/png");
    assert_eq!(make_content_type(&PNG, &Some("image/jpeg".to_owned())), "image/png");
}

#[test]
fn xml_is_an_attachment_and_svg_is_corrected() {
    let svg = b"<?xml version=\"1.0\"?><svg xmlns=\"http://www.w3.org/2000/svg\"></svg>";
    assert_eq!(content_disposition_type(svg, &None), "attachment");
    assert_eq!(make_content_type(svg, &Some("image/svg+xml".to_owned())), "image/svg+xml");
    assert_eq!(make_content_type(svg, &None), "text/xml");
}

#[test]
fn disposition_with_requested_filename() {
    let r = make_content_disposition(&PNG, &None, None, Some("../cat.png".to_owned()));
    assert_eq!(r, "inline; filename=..cat.png");
}

#[test]
fn disposition_with_stored_filename() {
    let r = make_content_disposition(b"plain", &None, Some("attachment; filename=a/b.txt".to_owned()), None);
    assert_eq!(r, "attachment; filename=ab.txt");
}

#[test]
fn disposition_without_filename() {
    assert_eq!(make_content_disposition(b"plain", &None, Some("inline".to_owned()), None), "attachment");
    assert_eq!(make_content_disposition(b"plain", &None, None, None), "attachment");
    assert_eq!(make_content_disposition(b"plain", &None, Some("x; filename=".to_owned()), None), "attachment");
}

#[test]
fn sanitise_removes_separators() {
    assert_eq!(sanitise_filename("a/b\\c:d".to_owned()), "abcd");
}

#[test]
fn decisions_from_detected_type() {
    assert_eq!(disposition_of(None), "attachment");
    assert_eq!(disposition_of(Some(("image/png", MediaKind::Image))), "inline");
    assert_eq!(disposition_of(Some(("text/xml", MediaKind::Text))), "attachment");
    assert_eq!(disposition_of(Some(("application/zip", MediaKind::Archive))), "attachment");
    assert_eq!(content_type_of(None, &Some("image/png".to_owned())), "application/octet-stream");
    assert_eq!(content_type_of(Some(("text/xml", MediaKind::Text)), &Some("image/svg+xml".to_owned())), "image/svg+xml");
    assert_eq!(content_type_of(Some(("text/xml", MediaKind::Text)), &None), "text/xml");
    assert_eq!(content_type_of(Some(("image/png", MediaKind::Image)), &Some("image/svg".to_owned())), "image/png");
}
