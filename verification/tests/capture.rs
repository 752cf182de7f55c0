use reims_vgpu::host_display::capture::{
    encode_ppm, output_path, parse_request, part_path, serve_request, CaptureRefusal, ShortFrame,
    REQUEST,
};

#[test]
fn a_plain_name_is_accepted_and_trimmed() {
    assert_eq!(parse_request("03-wallpaper\n").unwrap(), "03-wallpaper");
}

#[test]
fn names_that_leave_tmp_or_are_empty_are_refused() {
    let long = "x".repeat(129);
    for bad in [
        "",
        "   ",
        "../x",
        "a/b",
        "/etc/passwd",
        ".",
        "..",
        long.as_str(),
    ] {
        assert!(parse_request(bad).is_err(), "{bad:?}");
    }
}

#[test]
fn each_refusal_says_why() {
    assert_eq!(parse_request(" \t\n"), Err(CaptureRefusal::Empty));
    assert_eq!(
        parse_request("../x"),
        Err(CaptureRefusal::BadName("../x".to_string()))
    );
    assert_eq!(
        parse_request(&"x".repeat(129)),
        Err(CaptureRefusal::TooLong(129))
    );
    assert_eq!(parse_request(&"x".repeat(128)).unwrap().len(), 128);
    // The limit counts bytes, and comes before the characters are looked at.
    assert_eq!(
        parse_request(&"é".repeat(65)),
        Err(CaptureRefusal::TooLong(130))
    );
    assert_eq!(
        parse_request("é"),
        Err(CaptureRefusal::BadName("é".to_string()))
    );
    assert_eq!(parse_request("\u{3000}a.B_9-\u{a0}").unwrap(), "a.B_9-");
}

#[test]
fn a_refusal_reads_as_its_log_field() {
    assert_eq!(CaptureRefusal::Empty.to_string(), "capture_request_empty");
    assert_eq!(
        CaptureRefusal::TooLong(1290).to_string(),
        "capture_request_too_long len=1290"
    );
    assert_eq!(
        CaptureRefusal::BadName("a\"b\n".to_string()).to_string(),
        "capture_request_bad_name name=\"a\\\"b\\n\""
    );
    assert_eq!(
        CaptureRefusal::BadName("x".to_string()).render("<x>"),
        "capture_request_bad_name name=<x>"
    );
}

#[test]
fn an_accepted_capture_stays_in_tmp() {
    assert_eq!(output_path("03-wallpaper"), "/tmp/03-wallpaper.ppm");
    assert_eq!(output_path("/x"), "/x.ppm");
    assert_eq!(output_path(""), "/tmp/.ppm");
    assert_eq!(serve_request(" m3 \n").unwrap(), "/tmp/m3.ppm");
    assert_eq!(serve_request("/"), Err(CaptureRefusal::BadName("/".to_string())));
    assert_eq!(part_path("/tmp/m3.ppm"), "/tmp/m3.ppm.part");
    assert_eq!(REQUEST, "/tmp/reims-capture.req");
}

#[test]
fn the_ppm_is_rgb_from_bgra() {
    assert_eq!(
        encode_ppm(2, 1, &[1, 2, 3, 255, 4, 5, 6, 255]).unwrap(),
        b"P6\n2 1\n255\n\x03\x02\x01\x06\x05\x04".to_vec()
    );
}

#[test]
fn a_ppm_takes_only_the_pixels_it_names() {
    assert_eq!(
        encode_ppm(1, 1, &[1, 2, 3, 4, 5]).unwrap(),
        b"P6\n1 1\n255\n\x03\x02\x01".to_vec()
    );
    assert_eq!(encode_ppm(0, 7, &[]).unwrap(), b"P6\n0 7\n255\n".to_vec());
    let short = encode_ppm(20, 10, &[0; 799]).unwrap_err();
    assert_eq!(short, ShortFrame { len: 799, width: 20, height: 10 });
    assert_eq!(short.to_string(), "799 bytes for 20x10");
}
