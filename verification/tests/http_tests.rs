use nekonomicon::http::{Headers, HttpError, HttpResponse, json_headers};

#[test]
fn test_http_response_creation() {
    let mut headers = Headers::new();
    headers.insert("Content-Type".to_string(), "application/json".to_string());

    let response = HttpResponse::new(200, "test body".to_string(), headers);

    assert_eq!(response.status, 200);
    assert_eq!(response.body, "test body");
    assert!(response.is_success());
    assert_eq!(
        response.get_header("Content-Type"),
        Some(&"application/json".to_string())
    );
}

#[test]
fn test_is_success() {
    let response_200 = HttpResponse::new(200, "".to_string(), Headers::new());
    assert!(response_200.is_success());

    let response_201 = HttpResponse::new(201, "".to_string(), Headers::new());
    assert!(response_201.is_success());

    let response_404 = HttpResponse::new(404, "".to_string(), Headers::new());
    assert!(!response_404.is_success());

    let response_500 = HttpResponse::new(500, "".to_string(), Headers::new());
    assert!(!response_500.is_success());
}

#[test]
fn test_get_header() {
    let mut headers = Headers::new();
    headers.insert("X-Custom-Header".to_string(), "custom-value".to_string());

    let response = HttpResponse::new(200, "".to_string(), headers);

    assert_eq!(
        response.get_header("X-Custom-Header"),
        Some(&"custom-value".to_string())
    );
    assert_eq!(response.get_header("Non-Existent"), None);
}

#[test]
fn a_later_insert_replaces_the_header() {
    let mut headers = Headers::new();
    headers.insert("X-N".to_string(), "one".to_string());
    headers.insert("X-N".to_string(), "two".to_string());
    assert_eq!(headers.get("X-N"), Some(&"two".to_string()));
}

#[test]
fn json_headers_set_the_content_type() {
    let h = json_headers(None);
    assert_eq!(h.get("Content-Type"), Some(&"application/json".to_string()));

    let mut given = Headers::new();
    given.insert("Accept".to_string(), "text/plain".to_string());
    given.insert("Content-Type".to_string(), "text/plain".to_string());
    let h = json_headers(Some(given));
    assert_eq!(h.get("Accept"), Some(&"text/plain".to_string()));
    assert_eq!(h.get("Content-Type"), Some(&"application/json".to_string()));
}

#[test]
fn http_error_messages_carry_their_codes() {
    assert_eq!(HttpError::Timeout.message(), "HTTP-005: Request timeout");
    assert_eq!(
        HttpError::NetworkError("refused".to_string()).message(),
        "HTTP-006: Network error: refused"
    );
    assert_eq!(
        HttpError::InvalidUrl("not a url".to_string()).message(),
        "HTTP-002: Invalid URL: not a url"
    );
}
