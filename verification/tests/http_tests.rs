use rustberry::http::{http_response, respond_snapshot};
use rustberry::json::render_json;
use rustberry::reading::{Reading, SensorKind};

#[test]
fn empty_store_response_has_content_length_two() {
    let response = respond_snapshot(&vec![]);
    let expected = b"HTTP/1.1 200 OK\r\nContent-Type: application/json; charset=utf-8\r\nContent-Length: 2\r\n\r\n[]";
    assert_eq!(response, expected.to_vec());
}

#[test]
fn content_length_is_the_exact_body_length() {
    let readings = vec![
        Reading::new(SensorKind::Dht22, 1700000000, 215, 604),
        Reading::new(SensorKind::Dummy, 1700000060, -15, 999),
    ];
    let body = render_json(&readings);
    let response = http_response(&body);
    let text = String::from_utf8(response.clone()).unwrap();
    let header = format!("Content-Length: {}\r\n\r\n", body.len());
    assert!(text.contains(&header));
    assert!(response.ends_with(&body));
}

#[test]
fn response_body_starts_after_the_blank_line() {
    let readings = vec![Reading::new(SensorKind::Dht11, 7, 0, 0)];
    let response = respond_snapshot(&readings);
    let text = String::from_utf8(response).unwrap();
    let (head, body) = text.split_once("\r\n\r\n").unwrap();
    assert!(head.starts_with("HTTP/1.1 200 OK\r\n"));
    assert!(head.contains("Content-Type: application/json; charset=utf-8"));
    assert_eq!(body.len(), render_json(&readings).len());
    let value: serde_json::Value = serde_json::from_str(body).unwrap();
    assert_eq!(value.as_array().unwrap().len(), 1);
}
