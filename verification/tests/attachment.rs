use msgboard::attachment::{
    get_extension, stored_file, validate_attachment, AttachmentRejected, ContentType, Upload,
    MAX_ATTACHMENT_BYTES,
};
use msgboard::payload_too_large;

fn upload(name: &str, size: u64, kind: Option<(&str, &str)>) -> Upload {
    Upload {
        file_name: name.to_string(),
        size,
        content_type: kind.map(|(top, sub)| ContentType::new(top, sub)),
    }
}

#[test]
fn extensions_of_the_accepted_types() {
    assert_eq!(get_extension(&ContentType::new("image", "jpeg")), Some("jpg"));
    assert_eq!(get_extension(&ContentType::new("image", "png")), Some("png"));
    assert_eq!(get_extension(&ContentType::new("image", "gif")), Some("gif"));
    assert_eq!(get_extension(&ContentType::new("image", "webp")), Some("webp"));
}

#[test]
fn letter_case_of_a_type_makes_no_difference() {
    assert_eq!(get_extension(&ContentType::new("IMAGE", "JPEG")), Some("jpg"));
    assert_eq!(get_extension(&ContentType::new("Image", "Png")), Some("png"));
    assert_eq!(get_extension(&ContentType::new("iMaGe", "wEbP")), Some("webp"));
}

#[test]
fn other_types_have_no_extension() {
    assert_eq!(get_extension(&ContentType::new("image", "jpg")), None);
    assert_eq!(get_extension(&ContentType::new("image", "bmp")), None);
    assert_eq!(get_extension(&ContentType::new("image", "svg+xml")), None);
    assert_eq!(get_extension(&ContentType::new("video", "mp4")), None);
    assert_eq!(get_extension(&ContentType::new("video", "webm")), None);
    assert_eq!(get_extension(&ContentType::new("audio", "mpeg")), None);
    assert_eq!(get_extension(&ContentType::new("text", "png")), None);
    assert_eq!(get_extension(&ContentType::new("application", "octet-stream")), None);
    assert_eq!(get_extension(&ContentType::new("", "")), None);
    assert_eq!(get_extension(&ContentType::new("image", "")), None);
    assert_eq!(get_extension(&ContentType::new("image", "pngx")), None);
    assert_eq!(get_extension(&ContentType::new("imag\u{45}", "pn\u{67}")), Some("png"));
    assert_eq!(get_extension(&ContentType::new("\u{212a}mage", "png")), None);
    assert_eq!(get_extension(&ContentType::new("image", "p\u{ee}g")), None);
    assert_eq!(get_extension(&ContentType::new("image", "`if")), None);
    assert_eq!(get_extension(&ContentType::new("image", "[IF")), None);
}

#[test]
fn oversize_upload_of_an_accepted_type_is_refused() {
    let big = upload("holiday.jpg", 21 * 1024 * 1024, Some(("image", "jpeg")));
    assert_eq!(validate_attachment(&big), Err(AttachmentRejected::Oversize));
}

#[test]
fn small_executable_is_refused() {
    let exe = upload("setup.exe", 1024, Some(("application", "x-msdownload")));
    assert_eq!(validate_attachment(&exe), Err(AttachmentRejected::BadType));
    let bare = upload("setup.exe", 1024, None);
    assert_eq!(validate_attachment(&bare), Err(AttachmentRejected::BadType));
    let generic = upload("setup.exe", 1024, Some(("application", "octet-stream")));
    assert_eq!(validate_attachment(&generic), Err(AttachmentRejected::BadType));
}

#[test]
fn size_ceiling_is_twenty_mebibytes() {
    assert_eq!(MAX_ATTACHMENT_BYTES, 20_971_520);
    let at = upload("a.png", 20_971_520, Some(("image", "png")));
    assert_eq!(validate_attachment(&at), Ok("png"));
    let over = upload("a.png", 20_971_521, Some(("image", "png")));
    assert_eq!(validate_attachment(&over), Err(AttachmentRejected::Oversize));
    let empty = upload("a.gif", 0, Some(("image", "gif")));
    assert_eq!(validate_attachment(&empty), Ok("gif"));
}

#[test]
fn oversize_is_reported_before_the_type() {
    let both = upload("film.mp4", u64::MAX, Some(("video", "mp4")));
    assert_eq!(validate_attachment(&both), Err(AttachmentRejected::Oversize));
    let none = upload("film", 20_971_521, None);
    assert_eq!(validate_attachment(&none), Err(AttachmentRejected::Oversize));
}

#[test]
fn file_name_plays_no_part() {
    let disguised = upload("cat.png", 10, Some(("text", "html")));
    assert_eq!(validate_attachment(&disguised), Err(AttachmentRejected::BadType));
    let odd = upload("../../etc/passwd", 10, Some(("image", "webp")));
    assert_eq!(validate_attachment(&odd), Ok("webp"));
    let jpeg = upload("no extension", 10, Some(("image", "jpeg")));
    assert_eq!(validate_attachment(&jpeg), Ok("jpg"));
}

#[test]
fn stored_file_is_named_by_the_label() {
    let file = stored_file("Xy9aB", "jpg");
    assert_eq!(file.file_name, "Xy9aB.jpg");
    assert_eq!(file.path, "/static/uploads/Xy9aB.jpg");
    let file = stored_file("00000", "webp");
    assert_eq!(file.file_name, "00000.webp");
    assert_eq!(file.path, "/static/uploads/00000.webp");
}

#[test]
fn too_large_message() {
    assert_eq!(
        payload_too_large(),
        "Payload too large! The file you are trying to upload exceeds the server's limit."
    );
}
