use ywpm::outcome::{get_ln_if_needed, ActionPerformError, ActionSuccess, BoxedError, EmptyPackageError};
use ywpm::resolution::{gcd, Resolution};
use ywpm::warning::Warning;

#[test]
fn warning_lines() {
    let mut w = Warning::new();
    w.append_msg_error_path("I/O error", "denied", "/a");
    w.append_msg_path("Image corrupted", "/b.png");
    w.append_msg_error("Walkdir error", "loop");
    w.append_ln("x");
    w.append("y");
    assert_eq!(
        w.message(),
        "Warning: I/O error: denied: '/a'\nWarning: Image corrupted: '/b.png'\nWarning: Walkdir error: loop\nx\ny"
    );
}

#[test]
fn success_display_adds_line_breaks() {
    let s = ActionSuccess::with_message("done".to_string());
    assert_eq!(s.to_display_string(), "done\n");
    let empty = ActionSuccess::new();
    assert_eq!(empty.to_display_string(), "");
    let w = ActionSuccess::with_warning(Warning::from_message("careful\n".to_string()));
    assert_eq!(w.to_display_string(), "careful\n");
    assert_eq!(get_ln_if_needed("a"), "\n");
    assert_eq!(get_ln_if_needed("a\n"), "");
    assert_eq!(get_ln_if_needed(""), "");
}

#[test]
fn boxed_errors_keep_their_text() {
    let inner = ActionPerformError::new("inner".to_string());
    let e = ActionPerformError::from_boxed(BoxedError::ActionPerform(inner));
    assert_eq!(e.message(), "inner");
    let e = ActionPerformError::from_boxed(BoxedError::Other("os error 2".to_string()));
    assert_eq!(e.message(), "os error 2");
    assert_eq!(e.to_display_string(), "os error 2");
}

#[test]
fn empty_package_text() {
    assert_eq!(EmptyPackageError.to_display_string(), "Recieved package with zero size");
}

#[test]
fn ratio_in_lowest_terms() {
    assert_eq!(Resolution::new(1920, 1080).ratio_str(), "16:9");
    assert_eq!(Resolution::new(2560, 1080).ratio_str(), "64:27");
    assert_eq!(Resolution::new(7, 0).ratio_str(), "1:0");
    assert_eq!(Resolution::new(0, 0).ratio_str(), "0:0");
    assert_eq!(Resolution::new(1920, 1080).to_display_string(), "1920x1080");
    assert_eq!(gcd(1920, 1080), 120);
    assert_eq!(gcd(5, 0), 5);
    assert!(Resolution::new(1280, 720).ratio_equals(&Resolution::new(1920, 1080)));
    assert!(!Resolution::new(1280, 1024).ratio_equals(&Resolution::new(1920, 1080)));
}
