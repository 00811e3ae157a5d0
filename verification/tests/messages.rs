use fprint::error::DaemonError;
use fprint::image::{GrayImage, ImageError};
use fprint::text::decimal_string;

#[test]
fn image_errors_read_as_sentences() {
    let e = ImageError::BufferTooShort { width: 30, height: 40, got: 5 };
    assert_eq!(e.message(), "grayscale buffer holds 5 bytes, need 1200 for a 30x40 image");
    let e = ImageError::BufferTooShort { width: usize::MAX, height: 2, got: 0 };
    assert_eq!(
        e.message(),
        format!("grayscale buffer holds 0 bytes, need {} for a {}x2 image", usize::MAX, usize::MAX)
    );
    let e = ImageError::TooSmall { width: 10, height: 30, min: 25 };
    assert_eq!(
        e.message(),
        "image 10x30 is too small to detect minutiae: each dimension must be at least 25 pixels"
    );
    let e = ImageError::TooLarge { width: 1 << 31, height: 1 };
    assert_eq!(
        e.message(),
        "image 2147483648x1 is too large: each dimension must be at most 2147483647"
    );
}

#[test]
fn an_image_describes_its_geometry_not_its_pixels() {
    let data = vec![0u8; 30 * 26];
    let img = GrayImage::new(&data, 30, 26, 500).unwrap();
    assert_eq!(img.describe(), "GrayImage { 30x26 @ 500ppi }");
    assert_eq!(decimal_string(500), "500");
}

#[test]
fn daemon_errors_carry_their_dbus_names() {
    let e = DaemonError::AlreadyInUse("Device was already claimed".to_string());
    assert_eq!(e.name(), "net.reactivated.Fprint.Error.AlreadyInUse");
    assert_eq!(e.message(), "Device was already claimed");
    let e = DaemonError::PrintsNotDeleted("unlink".to_string());
    assert_eq!(e.name(), "net.reactivated.Fprint.Error.PrintsNotDeleted");
}
