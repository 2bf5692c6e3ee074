use sonium::control::media::validate_media_url;

#[test]
fn accepts_http_urls() {
    assert!(validate_media_url("http://ha.local:8123/api/tts_proxy/abc.mp3").is_ok());
    assert!(validate_media_url("HTTPS://example.com/chime.wav").is_ok());
}

#[test]
fn rejects_other_schemes_and_junk() {
    assert!(validate_media_url("").is_err());
    assert!(validate_media_url("file:///etc/passwd").is_err());
    assert!(validate_media_url("/etc/passwd").is_err());
    assert!(validate_media_url("-i http://x").is_err());
    assert!(validate_media_url("concat:http://a|http://b").is_err());
    assert!(validate_media_url("http://a b").is_err());
}

#[test]
fn media_url_is_trimmed_before_checks() {
    assert!(validate_media_url("  https://example.com/a.mp3 \n").is_ok());
    assert_eq!(validate_media_url("   ").unwrap_err(), "url is required");
}

#[test]
fn media_url_error_messages() {
    let long = format!("http://{}", "a".repeat(4090));
    assert_eq!(validate_media_url(&long).unwrap_err(), "url is too long");
    assert_eq!(
        validate_media_url("http://a\tb").unwrap_err(),
        "url must not contain whitespace or control characters"
    );
    assert_eq!(
        validate_media_url("ftp://x").unwrap_err(),
        "only http:// and https:// URLs are supported"
    );
}

#[test]
fn media_url_refusals_name_the_rule() {
    assert_eq!(validate_media_url("   ").unwrap_err(), "url is required");
    assert_eq!(validate_media_url(&format!("http://{}", "a".repeat(4100))).unwrap_err(), "url is too long");
    assert_eq!(
        validate_media_url("http://a b").unwrap_err(),
        "url must not contain whitespace or control characters"
    );
    assert_eq!(validate_media_url("file:///etc/passwd").unwrap_err(), "only http:// and https:// URLs are supported");
}
